//! What parsing a character sequence yields, stated as recursive descent over
//! positions. Each function gives its result and the number of characters it
//! consumes from its starting position.

use vstd::prelude::*;
use crate::chars::{
    len_before, lemma_len_before_bound, lemma_name_len_bound, lemma_run_len_bound, name_len, trim,
    white_space, ws_len,
};
use crate::dom::{
    attr_set, keys_unique, lemma_attr_set_unique, lemma_names_unique_upto, names_unique, AttrsView, KindView, NodeView,
};

verus! {

/// Whether the characters at `p` begin a closing tag, `</`.
pub open spec fn at_close(s: Seq<char>, p: int) -> bool {
    0 <= p && p + 1 < s.len() && s[p] == '<' && s[p + 1] == '/'
}

/// One more than `p` when `p` is a position of `s`: a single character is
/// taken there, if there is one.
pub open spec fn step(s: Seq<char>, p: int) -> int {
    if p < s.len() {
        p + 1
    } else {
        p
    }
}

/// A text node.
pub open spec fn text_view(t: Seq<char>) -> NodeView {
    NodeView { kind: KindView::Text(t), children: Seq::empty() }
}

/// An element node.
pub open spec fn element_view(tag: Seq<char>, attrs: AttrsView, children: Seq<NodeView>) -> NodeView {
    NodeView { kind: KindView::Element(tag, attrs), children }
}

/// The attribute list that starts at `p`, added to `m`, up to (not including)
/// the `>` or `/` that ends the tag head.
///
/// A name followed by `=` takes the next character as its quote and the
/// characters up to the matching quote as its value; a name without `=` gets
/// the empty value. A character that can neither start a name nor be `=` is
/// taken and recorded as an attribute with the empty name and the empty
/// value. The list ends only at `>`, `/` or the end of the input.
pub open spec fn attrs_from(s: Seq<char>, p: int, m: AttrsView) -> (AttrsView, nat)
    decreases s.len() - p,
{
    let w = ws_len(s, p);
    let q = p + w;
    let n = q + name_len(s, q);
    if p < 0 || q >= s.len() || s[q] == '>' || s[q] == '/' {
        (m, w)
    } else if n < s.len() && s[n] == '=' {
        if n + 1 < s.len() {
            let quote = s[n + 1];
            let e = n + 2 + len_before(s, n + 2, quote);
            let after = step(s, e);
            let m1 = attr_set(m, s.subrange(q, n), s.subrange(n + 2, e));
            proof {
                lemma_len_before_bound(s, n + 2, quote);
            }
            let (m2, k) = attrs_from(s, after, m1);
            (m2, (after - p) as nat + k)
        } else {
            (m, (n + 1 - p) as nat)
        }
    } else if n > q {
        let m1 = attr_set(m, s.subrange(q, n), Seq::empty());
        proof {
            lemma_name_len_bound(s, q);
        }
        let (m2, k) = attrs_from(s, n, m1);
        (m2, (n - p) as nat + k)
    } else {
        let m1 = attr_set(m, Seq::empty(), Seq::empty());
        let (m2, k) = attrs_from(s, q + 1, m1);
        (m2, (q + 1 - p) as nat + k)
    }
}

/// The node that starts at `p`: nothing when only whitespace is left; an
/// empty text node for a whitespace-only run before a `<`; an element (or
/// nothing) at `<`; else a text node holding the trimmed run of characters
/// before the next `<`.
pub open spec fn node_at(s: Seq<char>, p: int) -> (Option<NodeView>, nat)
    decreases s.len() - p, 1int,
{
    let w = ws_len(s, p);
    let q = p + w;
    if p < 0 || q >= s.len() {
        (None, w)
    } else if s[q] == '<' && w > 0 {
        (Some(text_view(Seq::empty())), w)
    } else if s[q] == '<' {
        let (r, k) = element_at(s, q);
        (r, w + k)
    } else {
        let e = q + len_before(s, q, '<');
        (Some(text_view(trim(s.subrange(q, e)))), (e - p) as nat)
    }
}

/// The element whose `<` stands at `p`.
///
/// At `</` the closing tag is skipped through its `>` and no element comes
/// out. Otherwise the tag name and attributes are read, then an optional `/`
/// and a `>` that must be there (else no element comes out). After a `/` the
/// element has no children; else its children run up to the end of the input
/// or a `</`, whose tag, whatever its name, is skipped through its `>`.
pub open spec fn element_at(s: Seq<char>, p: int) -> (Option<NodeView>, nat)
    decreases s.len() - p, 0int,
{
    if p < 0 || p >= s.len() || s[p] != '<' {
        (None, (step(s, p) - p) as nat)
    } else if p + 1 < s.len() && s[p + 1] == '/' {
        let e = p + 2 + len_before(s, p + 2, '>');
        (None, (step(s, e) - p) as nat)
    } else {
        let n = p + 1 + name_len(s, p + 1);
        let tag = s.subrange(p + 1, n);
        let (attrs, ka) = attrs_from(s, n, Seq::empty());
        let h = n + ka;
        let self_closing = h < s.len() && s[h] == '/';
        let g = if self_closing {
            h + 1
        } else {
            h
        };
        if !(g < s.len() && s[g] == '>') {
            (None, (step(s, g) - p) as nat)
        } else if self_closing {
            (Some(element_view(tag, attrs, Seq::empty())), (g + 1 - p) as nat)
        } else {
            let (kids, kc) = children_at(s, g + 1);
            let c = g + 1 + kc;
            let end = if at_close(s, c) {
                let t = c + 2 + name_len(s, c + 2);
                step(s, t + len_before(s, t, '>'))
            } else {
                c
            };
            (Some(element_view(tag, attrs, kids)), (end - p) as nat)
        }
    }
}

/// The children that start at `p`, up to the end of the input or a `</`.
pub open spec fn children_at(s: Seq<char>, p: int) -> (Seq<NodeView>, nat)
    decreases s.len() - p, 2int,
{
    if p < 0 || p >= s.len() || at_close(s, p) {
        (Seq::empty(), 0)
    } else {
        let (r, k) = node_at(s, p);
        // a node at a position before the end takes at least one character
        // (`lemma_node_at_advances`), so this test never holds; it makes the
        // descent evidently finite
        if k == 0 || p + k > s.len() {
            (Seq::empty(), 0)
        } else {
            let (rest, kr) = children_at(s, p + k);
            let kids = match r {
                Some(x) => seq![x] + rest,
                None => rest,
            };
            (kids, k + kr)
        }
    }
}

/// The top-level nodes from `p` on, up to the end of the input or the first
/// place where no node comes out.
pub open spec fn document_at(s: Seq<char>, p: int) -> (Seq<NodeView>, nat)
    decreases s.len() - p,
{
    let (r, k) = node_at(s, p);
    match r {
        None => (Seq::empty(), k),
        Some(x) => if p < 0 || k == 0 || p + k > s.len() {
            // never holds: a node takes at least one character and stays within
            // the input (`lemma_node_at_advances`)
            (seq![x], k)
        } else {
            let (rest, kr) = document_at(s, p + k);
            (seq![x] + rest, k + kr)
        },
    }
}

/// The tree of the characters `s` from `p` on.
pub open spec fn document_view(s: Seq<char>, p: int) -> NodeView {
    NodeView { kind: KindView::Document, children: document_at(s, p).0 }
}

/// Parsing from the end of the input yields a document without children and
/// consumes nothing: once a parser has reached the end, every further `parse`
/// gives an empty `Document` and leaves the cursor where it is.
pub proof fn lemma_parse_at_end_is_empty(s: Seq<char>)
    ensures
        document_view(s, s.len() as int).children.len() == 0,
        document_at(s, s.len() as int).1 == 0,
{
}

/// The attribute list read from a tag head has unique names when the list it
/// extends does.
pub proof fn lemma_attrs_from_unique(s: Seq<char>, p: int, m: AttrsView)
    requires
        keys_unique(m),
    ensures
        keys_unique(attrs_from(s, p, m).0),
    decreases s.len() - p,
{
    let w = ws_len(s, p);
    let q = p + w;
    let n = q + name_len(s, q);
    if p < 0 || q >= s.len() || s[q] == '>' || s[q] == '/' {
    } else if n < s.len() && s[n] == '=' {
        if n + 1 < s.len() {
            let quote = s[n + 1];
            let e = n + 2 + len_before(s, n + 2, quote);
            lemma_len_before_bound(s, n + 2, quote);
            lemma_attr_set_unique(m, s.subrange(q, n), s.subrange(n + 2, e));
            lemma_attrs_from_unique(s, step(s, e), attr_set(m, s.subrange(q, n), s.subrange(n + 2, e)));
        }
    } else if n > q {
        lemma_name_len_bound(s, q);
        lemma_attr_set_unique(m, s.subrange(q, n), Seq::empty());
        lemma_attrs_from_unique(s, n, attr_set(m, s.subrange(q, n), Seq::empty()));
    } else {
        lemma_attr_set_unique(m, Seq::empty(), Seq::empty());
        lemma_attrs_from_unique(s, q + 1, attr_set(m, Seq::empty(), Seq::empty()));
    }
}

proof fn lemma_node_at_unique(s: Seq<char>, p: int)
    ensures
        node_at(s, p).0 matches Some(x) ==> names_unique(x),
    decreases s.len() - p, 1int,
{
    let q = p + ws_len(s, p);
    if p < 0 || q >= s.len() {
    } else if s[q] == '<' && ws_len(s, p) > 0 {
        assert(names_unique(text_view(Seq::empty())));
    } else if s[q] == '<' {
        lemma_element_at_unique(s, q);
    } else {
        let e = q + len_before(s, q, '<');
        assert(names_unique(text_view(trim(s.subrange(q, e)))));
    }
}

proof fn lemma_element_at_unique(s: Seq<char>, p: int)
    ensures
        element_at(s, p).0 matches Some(x) ==> names_unique(x),
    decreases s.len() - p, 0int,
{
    if p < 0 || p >= s.len() || s[p] != '<' {
    } else if p + 1 < s.len() && s[p + 1] == '/' {
    } else {
        let n = p + 1 + name_len(s, p + 1);
        let empty: AttrsView = Seq::empty();
        lemma_attrs_from_unique(s, n, empty);
        let (attrs, ka) = attrs_from(s, n, empty);
        let h = n + ka;
        let self_closing = h < s.len() && s[h] == '/';
        let g = if self_closing {
            h + 1
        } else {
            h
        };
        let tag = s.subrange(p + 1, n);
        if g < s.len() && s[g] == '>' {
            if self_closing {
                assert(names_unique(element_view(tag, attrs, Seq::empty())));
            } else {
                lemma_children_at_unique(s, g + 1);
                let kids = children_at(s, g + 1).0;
                let v = element_view(tag, attrs, kids);
                assert forall|i: int| 0 <= i < v.children.len() implies #[trigger] names_unique(
                    v.children[i],
                ) by {
                    assert(names_unique(kids[i]));
                }
                lemma_names_unique_upto(kids, kids.len() as int);
                assert(names_unique(v));
            }
        }
    }
}

proof fn lemma_children_at_unique(s: Seq<char>, p: int)
    ensures
        forall|i: int|
            0 <= i < children_at(s, p).0.len() ==> #[trigger] names_unique(children_at(s, p).0[i]),
    decreases s.len() - p, 2int,
{
    if p < 0 || p >= s.len() || at_close(s, p) {
    } else {
        let (r, k) = node_at(s, p);
        if k == 0 || p + k > s.len() {
        } else {
            lemma_node_at_unique(s, p);
            lemma_children_at_unique(s, p + k);
            let rest = children_at(s, p + k).0;
            match r {
                Some(x) => {
                    assert forall|i: int| 0 <= i < (seq![x] + rest).len() implies #[trigger] names_unique(
                        (seq![x] + rest)[i],
                    ) by {
                        if i > 0 {
                            assert((seq![x] + rest)[i] == rest[i - 1]);
                        }
                    }
                },
                None => {},
            }
        }
    }
}

proof fn lemma_document_at_unique(s: Seq<char>, p: int)
    ensures
        forall|i: int|
            0 <= i < document_at(s, p).0.len() ==> #[trigger] names_unique(document_at(s, p).0[i]),
    decreases s.len() - p,
{
    let (r, k) = node_at(s, p);
    lemma_node_at_unique(s, p);
    match r {
        None => {},
        Some(x) => if p < 0 || k == 0 || p + k > s.len() {
        } else {
            lemma_document_at_unique(s, p + k);
            let rest = document_at(s, p + k).0;
            assert forall|i: int| 0 <= i < (seq![x] + rest).len() implies #[trigger] names_unique(
                (seq![x] + rest)[i],
            ) by {
                if i > 0 {
                    assert((seq![x] + rest)[i] == rest[i - 1]);
                }
            }
        },
    }
}

/// Every element of a parse result has attribute names that occur once
/// each: a name written twice in one tag keeps a single entry.
pub proof fn lemma_parse_names_unique(s: Seq<char>, p: int)
    ensures
        names_unique(document_view(s, p)),
{
    lemma_document_at_unique(s, p);
    let v = document_view(s, p);
    assert forall|i: int| 0 <= i < v.children.len() implies #[trigger] names_unique(v.children[i]) by {
        assert(names_unique(document_at(s, p).0[i]));
    }
    lemma_names_unique_upto(v.children, v.children.len() as int);
    assert(names_unique(v));
}

/// Whitespace runs stay within the input.
proof fn lemma_ws_len_bound(s: Seq<char>, p: int)
    requires
        0 <= p <= s.len(),
    ensures
        p + ws_len(s, p) <= s.len(),
{
    lemma_run_len_bound(s, p, |c: char| white_space(c));
}

/// The attribute list stays within the input and ends at its end, at `>` or
/// at `/`.
pub proof fn lemma_attrs_from_end(s: Seq<char>, p: int, m: AttrsView)
    requires
        0 <= p <= s.len(),
    ensures
        p + attrs_from(s, p, m).1 <= s.len(),
        p + attrs_from(s, p, m).1 == s.len() || s[p + attrs_from(s, p, m).1] == '>' || s[p
            + attrs_from(s, p, m).1] == '/',
    decreases s.len() - p,
{
    let w = ws_len(s, p);
    let q = p + w;
    lemma_ws_len_bound(s, p);
    if q >= s.len() || s[q] == '>' || s[q] == '/' {
    } else {
        lemma_name_len_bound(s, q);
        let n = q + name_len(s, q);
        if n < s.len() && s[n] == '=' {
            if n + 1 < s.len() {
                let quote = s[n + 1];
                let e = n + 2 + len_before(s, n + 2, quote);
                lemma_len_before_bound(s, n + 2, quote);
                lemma_attrs_from_end(s, step(s, e), attr_set(m, s.subrange(q, n), s.subrange(n + 2, e)));
            }
        } else if n > q {
            lemma_attrs_from_end(s, n, attr_set(m, s.subrange(q, n), Seq::empty()));
        } else {
            lemma_attrs_from_end(s, q + 1, attr_set(m, Seq::empty(), Seq::empty()));
        }
    }
}

/// A node stays within the input, and one that starts before the end takes
/// at least one character.
pub proof fn lemma_node_at_advances(s: Seq<char>, p: int)
    requires
        0 <= p <= s.len(),
    ensures
        p + node_at(s, p).1 <= s.len(),
        p < s.len() ==> node_at(s, p).1 > 0,
    decreases s.len() - p, 1int,
{
    let q = p + ws_len(s, p);
    lemma_ws_len_bound(s, p);
    if q < s.len() && s[q] == '<' && ws_len(s, p) == 0 {
        lemma_element_at_advances(s, q);
    } else if q < s.len() && s[q] != '<' {
        lemma_len_before_bound(s, q, '<');
    }
}

/// An element stays within the input, and one that starts before the end
/// takes at least one character.
pub proof fn lemma_element_at_advances(s: Seq<char>, p: int)
    requires
        0 <= p <= s.len(),
    ensures
        p + element_at(s, p).1 <= s.len(),
        p < s.len() ==> element_at(s, p).1 > 0,
    decreases s.len() - p, 0int,
{
    if p >= s.len() || s[p] != '<' {
    } else if p + 1 < s.len() && s[p + 1] == '/' {
        lemma_len_before_bound(s, p + 2, '>');
    } else {
        lemma_name_len_bound(s, p + 1);
        let n = p + 1 + name_len(s, p + 1);
        let empty: AttrsView = Seq::empty();
        lemma_attrs_from_end(s, n, empty);
        let h = n + attrs_from(s, n, empty).1;
        let self_closing = h < s.len() && s[h] == '/';
        let g = if self_closing {
            h + 1
        } else {
            h
        };
        if g < s.len() && s[g] == '>' && !self_closing {
            lemma_children_at_advances(s, g + 1);
            let c = g + 1 + children_at(s, g + 1).1;
            if at_close(s, c) {
                lemma_name_len_bound(s, c + 2);
                let t = c + 2 + name_len(s, c + 2);
                lemma_len_before_bound(s, t, '>');
            }
        }
    }
}

/// The children stay within the input.
pub proof fn lemma_children_at_advances(s: Seq<char>, p: int)
    requires
        0 <= p <= s.len(),
    ensures
        p + children_at(s, p).1 <= s.len(),
    decreases s.len() - p, 2int,
{
    if p >= s.len() || at_close(s, p) {
    } else {
        lemma_node_at_advances(s, p);
        let k = node_at(s, p).1;
        if k > 0 && p + k <= s.len() {
            lemma_children_at_advances(s, p + k);
        }
    }
}

} // verus!

//! The parser: a cursor over the input's characters, and recursive descent
//! that builds the document tree.

use vstd::prelude::*;
use crate::chars::{
    first_kept, is_alphanumeric, is_white_space, last_kept, len_before, name_len, push_char, trim,
    ws_len,
};
use crate::dom::{
    attrs_view, create_element_node, create_text_node, names_unique, opt_view, set_attr, views,
    AttrsView, Node, NodeType,
};
use crate::syntax::{
    attrs_from, children_at, document_at, document_view, element_at, node_at, step, text_view,
};

verus! {

/// A cursor over a markup text.
pub struct HtmlParser {
    input: Vec<char>,
    position: usize,
}

impl HtmlParser {
    /// The characters of the input.
    pub closed spec fn text(&self) -> Seq<char> {
        self.input@
    }

    /// The position of the cursor, counted in characters.
    pub closed spec fn cursor(&self) -> int {
        self.position as int
    }

    /// The cursor stands within the input or at its end.
    pub closed spec fn wf(&self) -> bool {
        self.position <= self.input@.len()
    }

    /// A parser at the start of `input`.
    pub fn new(input: &str) -> (r: Self)
        ensures
            r.wf(),
            r.text() == input@,
            r.cursor() == 0,
    {
        let mut chars: Vec<char> = Vec::new();
        for c in it: input.chars()
            invariant
                chars@ == it.seq().take(it.index() as int),
        {
            chars.push(c);
            assert(chars@ =~= it.seq().take(it.index() + 1));
        }
        proof {
            broadcast use vstd::string::group_string_axioms;
        }
        assert(chars@ =~= input@);
        HtmlParser { input: chars, position: 0 }
    }

    /// Whether the cursor has reached the end of the input.
    fn eof(&self) -> (r: bool)
        requires
            self.wf(),
        ensures
            r == (self.cursor() >= self.text().len()),
    {
        self.position >= self.input.len()
    }

    /// The character under the cursor, if any.
    fn current_char(&self) -> (r: Option<char>)
        requires
            self.wf(),
        ensures
            r == (if self.cursor() < self.text().len() {
                Some(self.text()[self.cursor()])
            } else {
                None
            }),
    {
        if self.position < self.input.len() {
            Some(self.input[self.position])
        } else {
            None
        }
    }

    /// Whether the next two characters are `</`.
    fn at_close_tag(&self) -> (r: bool)
        requires
            self.wf(),
        ensures
            r == crate::syntax::at_close(self.text(), self.cursor()),
    {
        self.position < self.input.len() && self.position + 1 < self.input.len()
            && self.input[self.position] == '<'
            && self.input[self.position + 1] == '/'
    }

    /// Whether the character under the cursor is `c`.
    fn next_is(&self, c: char) -> (r: bool)
        requires
            self.wf(),
        ensures
            r == (self.cursor() < self.text().len() && self.text()[self.cursor()] == c),
    {
        self.position < self.input.len() && self.input[self.position] == c
    }

    /// Takes the character under the cursor, if any.
    fn consume_char(&mut self) -> (r: Option<char>)
        requires
            old(self).wf(),
        ensures
            final(self).wf(),
            final(self).text() == old(self).text(),
            final(self).cursor() == step(old(self).text(), old(self).cursor()),
            r == (if old(self).cursor() < old(self).text().len() {
                Some(old(self).text()[old(self).cursor()])
            } else {
                None
            }),
    {
        if self.position >= self.input.len() {
            return None;
        }
        let c = self.input[self.position];
        self.position += 1;
        Some(c)
    }

    /// Moves the cursor past a run of whitespace.
    fn skip_whitespace(&mut self)
        requires
            old(self).wf(),
        ensures
            final(self).wf(),
            final(self).text() == old(self).text(),
            final(self).cursor() == old(self).cursor() + ws_len(old(self).text(), old(self).cursor()),
    {
        let ghost s = self.input@;
        let ghost start = self.position as int;
        while self.position < self.input.len() && is_white_space(self.input[self.position])
            invariant
                self.wf(),
                self.input@ == s,
                s == old(self).text(),
                start == old(self).cursor(),
                start <= self.position,
                ws_len(s, start) == (self.position - start) + ws_len(s, self.position as int),
            decreases s.len() - self.position,
        {
            self.position += 1;
        }
    }

    /// Takes a run of name characters (alphanumeric or `-`), possibly empty.
    fn parse_tag_name(&mut self) -> (r: String)
        requires
            old(self).wf(),
        ensures
            final(self).wf(),
            final(self).text() == old(self).text(),
            final(self).cursor() == old(self).cursor() + name_len(old(self).text(), old(self).cursor()),
            r@ == old(self).text().subrange(old(self).cursor(), final(self).cursor()),
    {
        let ghost s = self.input@;
        let start = self.position;
        while self.position < self.input.len() && (is_alphanumeric(self.input[self.position])
            || self.input[self.position] == '-')
            invariant
                self.wf(),
                self.input@ == s,
                s == old(self).text(),
                start == old(self).cursor(),
                start <= self.position,
                name_len(s, start as int) == (self.position - start) + name_len(s, self.position as int),
            decreases s.len() - self.position,
        {
            self.position += 1;
        }
        self.slice(start, self.position)
    }

    /// Moves the cursor up to (not past) the next `stop`, or to the end.
    fn skip_until(&mut self, stop: char)
        requires
            old(self).wf(),
        ensures
            final(self).wf(),
            final(self).text() == old(self).text(),
            final(self).cursor() == old(self).cursor() + len_before(old(self).text(), old(self).cursor(), stop),
    {
        let ghost s = self.input@;
        let ghost start = self.position as int;
        while self.position < self.input.len() && self.input[self.position] != stop
            invariant
                self.wf(),
                self.input@ == s,
                s == old(self).text(),
                start == old(self).cursor(),
                start <= self.position,
                len_before(s, start, stop) == (self.position - start) + len_before(s, self.position as int, stop),
            decreases s.len() - self.position,
        {
            self.position += 1;
        }
    }

    /// The characters of the input from `from` up to `to`.
    fn slice(&self, from: usize, to: usize) -> (r: String)
        requires
            from <= to <= self.text().len(),
        ensures
            r@ == self.text().subrange(from as int, to as int),
    {
        let mut r = String::new();
        let mut i = from;
        while i < to
            invariant
                from <= i <= to,
                to <= self.input@.len(),
                r@ == self.input@.subrange(from as int, i as int),
            decreases to - i,
        {
            push_char(&mut r, self.input[i]);
            i += 1;
            assert(r@ =~= self.input@.subrange(from as int, i as int));
        }
        r
    }

    /// A text node of the trimmed characters before the next `<`.
    fn parse_text_node(&mut self) -> (r: Node)
        requires
            old(self).wf(),
        ensures
            final(self).wf(),
            final(self).text() == old(self).text(),
            final(self).cursor() == old(self).cursor() + len_before(old(self).text(), old(self).cursor(), '<'),
            r@ == text_view(trim(old(self).text().subrange(old(self).cursor(), final(self).cursor()))),
    {
        let ghost s = self.input@;
        let start = self.position;
        self.skip_until('<');
        let end = self.position;
        let ghost t = s.subrange(start as int, end as int);
        let mut lo = start;
        while lo < end && is_white_space(self.input[lo])
            invariant
                start <= lo <= end,
                end <= s.len(),
                self.input@ == s,
                t == s.subrange(start as int, end as int),
                first_kept(t, 0) == first_kept(t, lo - start),
            decreases end - lo,
        {
            lo += 1;
        }
        let mut hi = end;
        while hi > lo && is_white_space(self.input[hi - 1])
            invariant
                start <= lo <= hi <= end,
                end <= s.len(),
                self.input@ == s,
                t == s.subrange(start as int, end as int),
                first_kept(t, 0) == lo - start,
                last_kept(t, lo - start, end - start) == last_kept(t, lo - start, hi - start),
            decreases hi - lo,
        {
            hi -= 1;
        }
        assert(trim(t) =~= s.subrange(lo as int, hi as int));
        let content = self.slice(lo, hi);
        create_text_node(content.as_str())
    }

    /// Reads the attribute list of a tag head, leaving the cursor at the
    /// character that ended it.
    fn parse_attributes(&mut self) -> (r: Vec<(String, String)>)
        requires
            old(self).wf(),
        ensures
            final(self).wf(),
            final(self).text() == old(self).text(),
            final(self).cursor() >= old(self).cursor(),
            attrs_from(old(self).text(), old(self).cursor(), Seq::empty()) == (
            attrs_view(r@),
            (final(self).cursor() - old(self).cursor()) as nat,
            ),
            final(self).cursor() == final(self).text().len() || final(self).text()[final(self).cursor()]
                == '>' || final(self).text()[final(self).cursor()] == '/',
    {
        let ghost s = self.input@;
        let ghost start = self.position as int;
        let ghost empty: AttrsView = Seq::empty();
        let mut attributes: Vec<(String, String)> = Vec::new();
        assert(attrs_view(attributes@) =~= empty);
        loop
            invariant_except_break
                attrs_from(s, start, empty).0 == attrs_from(s, self.position as int, attrs_view(attributes@)).0,
                attrs_from(s, start, empty).1 == (self.position - start) + attrs_from(
                    s,
                    self.position as int,
                    attrs_view(attributes@),
                ).1,
            invariant
                self.wf(),
                self.input@ == s,
                s == old(self).text(),
                start == old(self).cursor(),
                start <= self.position,
            ensures
                self.wf(),
                self.input@ == s,
                start <= self.position,
                attrs_from(s, start, empty) == (attrs_view(attributes@), (self.position - start) as nat),
            decreases s.len() - self.position,
        {
            let ghost p = self.position as int;
            let ghost m = attrs_view(attributes@);
            self.skip_whitespace();
            match self.current_char() {
                None => break,
                Some(c) => {
                    if c == '>' || c == '/' {
                        break;
                    }
                },
            }
            let q = self.position;
            let name = self.parse_tag_name();
            let n = self.position;
            if self.current_char() == Some('=') {
                self.consume_char();
                match self.consume_char() {
                    None => break,
                    Some(quote) => {
                        let vstart = self.position;
                        self.skip_until(quote);
                        let value = self.slice(vstart, self.position);
                        self.consume_char();
                        set_attr(&mut attributes, name, value);
                    },
                }
            } else if n == q {
                self.consume_char();
                assert(name@ =~= Seq::<char>::empty());
                set_attr(&mut attributes, name, String::new());
            } else {
                set_attr(&mut attributes, name, String::new());
            }
        }
        proof {
            crate::syntax::lemma_attrs_from_end(s, start, empty);
        }
        attributes
    }

    /// The next node: nothing when only whitespace is left, an empty text node
    /// for a whitespace-only run before a tag, an element at `<`, else a text
    /// node.
    fn parse_node(&mut self) -> (r: Option<Node>)
        requires
            old(self).wf(),
        ensures
            final(self).wf(),
            final(self).text() == old(self).text(),
            final(self).cursor() >= old(self).cursor(),
            node_at(old(self).text(), old(self).cursor()) == (
            opt_view(r),
            (final(self).cursor() - old(self).cursor()) as nat,
            ),
            old(self).cursor() < old(self).text().len() ==> final(self).cursor() > old(self).cursor(),
            r is Some ==> final(self).cursor() > old(self).cursor(),
        decreases old(self).input@.len() - old(self).position, 1int,
    {
        let start = self.position;
        self.skip_whitespace();
        if self.eof() {
            return None;
        }
        if self.next_is('<') {
            if self.position > start {
                let empty = String::new();
                let r = create_text_node(empty.as_str());
                assert(r@ == text_view(Seq::empty()));
                return Some(r);
            }
            self.parse_element()
        } else {
            Some(self.parse_text_node())
        }
    }

    /// The element whose `<` is under the cursor; nothing at a closing tag or
    /// at a tag head without its `>`.
    fn parse_element(&mut self) -> (r: Option<Node>)
        requires
            old(self).wf(),
        ensures
            final(self).wf(),
            final(self).text() == old(self).text(),
            final(self).cursor() >= old(self).cursor(),
            element_at(old(self).text(), old(self).cursor()) == (
            opt_view(r),
            (final(self).cursor() - old(self).cursor()) as nat,
            ),
            old(self).cursor() < old(self).text().len() ==> final(self).cursor() > old(self).cursor(),
        decreases old(self).input@.len() - old(self).position, 0int,
    {
        let ghost s = self.input@;
        let ghost p = self.position as int;
        match self.consume_char() {
            Some(c) => {
                if c != '<' {
                    return None;
                }
            },
            None => {
                return None;
            },
        }
        if self.next_is('/') {
            self.consume_char();
            self.skip_until('>');
            self.consume_char();
            return None;
        }
        let tag_name = self.parse_tag_name();
        let attributes = self.parse_attributes();
        let is_self_closing = if self.next_is('/') {
            self.consume_char();
            true
        } else {
            false
        };
        let ghost n = p + 1 + name_len(s, p + 1);
        let ghost h = n + attrs_from(s, n, Seq::empty()).1;
        assert(h == self.position - (if is_self_closing { 1int } else { 0int }));
        if !self.next_is('>') {
            self.consume_char();
            return None;
        }
        self.consume_char();
        if is_self_closing {
            let r = create_element_node(tag_name.as_str(), attributes, Vec::new());
            assert(r@.children =~= Seq::<crate::dom::NodeView>::empty());
            return Some(r);
        }
        let ghost g1 = self.position as int;
        let mut children: Vec<Node> = Vec::new();
        assert(views(children@) =~= Seq::empty());
        loop
            invariant_except_break
                children_at(s, g1).0 == views(children@) + children_at(s, self.position as int).0,
                children_at(s, g1).1 == (self.position - g1) + children_at(s, self.position as int).1,
            invariant
                self.wf(),
                self.input@ == s,
                s == old(self).input@,
                p == old(self).position,
                p < g1 <= self.position,
            ensures
                self.wf(),
                self.input@ == s,
                p < g1 <= self.position,
                children_at(s, g1) == (views(children@), (self.position - g1) as nat),
            decreases s.len() - self.position,
        {
            if self.eof() {
                break;
            }
            if self.at_close_tag() {
                break;
            }
            let ghost q = self.position as int;
            let ghost before = views(children@);
            let ghost rest = children_at(s, q + node_at(s, q).1);
            match self.parse_node() {
                Some(child) => {
                    children.push(child);
                    assert(views(children@) =~= before.push(child@));
                    assert(seq![child@] + rest.0 =~= seq![child@] + rest.0);
                    assert(before + (seq![child@] + rest.0) =~= views(children@) + rest.0);
                },
                None => {},
            }
        }
        if self.at_close_tag() {
            self.consume_char();
            self.consume_char();
            self.parse_tag_name();
            self.skip_until('>');
            self.consume_char();
        }
        let r = create_element_node(tag_name.as_str(), attributes, children);
        assert(r@.children =~= views(r.children@));
        Some(r)
    }

    /// Parses every top-level node from the cursor on, up to the end of the
    /// input or the first place where no node comes out, under a `Document`
    /// root. At the end of the input the root has no children.
    pub fn parse(&mut self) -> (r: Node)
        requires
            old(self).wf(),
        ensures
            final(self).wf(),
            final(self).text() == old(self).text(),
            r@ == document_view(old(self).text(), old(self).cursor()),
            names_unique(r@),
            final(self).cursor() == old(self).cursor() + document_at(old(self).text(), old(self).cursor()).1,
    {
        let ghost s = self.input@;
        let ghost c = self.position as int;
        let mut children: Vec<Node> = Vec::new();
        assert(views(children@) =~= Seq::empty());
        loop
            invariant_except_break
                document_at(s, c).0 == views(children@) + document_at(s, self.position as int).0,
                document_at(s, c).1 == (self.position - c) + document_at(s, self.position as int).1,
            invariant
                self.wf(),
                self.input@ == s,
                s == old(self).text(),
                c == old(self).cursor(),
                c <= self.position,
            ensures
                self.wf(),
                self.input@ == s,
                document_at(s, c) == (views(children@), (self.position - c) as nat),
            decreases s.len() - self.position,
        {
            let ghost p = self.position as int;
            let ghost before = views(children@);
            match self.parse_node() {
                Some(node) => {
                    let ghost rest = document_at(s, self.position as int).0;
                    children.push(node);
                    assert(views(children@) =~= before.push(node@));
                    assert(before + (seq![node@] + rest) =~= views(children@) + rest);
                },
                None => break,
            }
        }
        let r = Node { node_type: NodeType::Document, children };
        assert(r@.children =~= views(r.children@));
        proof {
            crate::syntax::lemma_parse_names_unique(s, c);
        }
        r
    }
}

} // verus!

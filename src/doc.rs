//! The document parser: reads a whole source into one tree, pairing each
//! closing tag with the innermost open element.
use crate::ast::{kind_of, Attribute, ElemTy, Node};
use crate::chars::chars_of;
use crate::markup::{
    attrs_view, error_is, item_end, item_err, item_spec, lemma_item_spec, parse_item, AttrV, ErrV, ItemOut,
    ParseError,
};
use vstd::prelude::*;
use vstd::string::*;

verus! {

/// A tree as values.
pub enum NodeV {
    Text(Seq<char>),
    Comment(Seq<char>),
    Close(Seq<char>),
    Elem {
        name: Option<Seq<char>>,
        kind: ElemTy,
        attrs: Seq<AttrV>,
        children: Seq<NodeV>,
        self_closing: bool,
    },
}

pub open spec fn node_view(n: Node) -> NodeV
    decreases n,
{
    match n {
        Node::Text(t) => NodeV::Text(t@),
        Node::Comment(t) => NodeV::Comment(t@),
        Node::CloseMarker(t) => NodeV::Close(t@),
        Node::Element { name, kind, attributes, children, self_closing } => NodeV::Elem {
            name: match name {
                Some(x) => Some(x@),
                None => None,
            },
            kind,
            attrs: attrs_view(attributes@),
            children: nodes_view(children@),
            self_closing,
        },
    }
}

pub open spec fn nodes_view(v: Seq<Node>) -> Seq<NodeV>
    decreases v,
{
    if v.len() == 0 {
        Seq::empty()
    } else {
        nodes_view(v.drop_last()).push(node_view(v.last()))
    }
}

/// An element whose closing tag has not been read yet.
pub struct FrameV {
    pub name: Seq<char>,
    pub kind: ElemTy,
    pub attrs: Seq<AttrV>,
    pub children: Seq<NodeV>,
}

/// An error of the document, as a value.
pub enum DocErr {
    Item(ErrV),
    Mismatch { start: int, end: int, expected: Seq<char>, found: Seq<char> },
    Stray { start: int, end: int },
}

/// The state of reading a document: the open elements, innermost last; the
/// finished top-level nodes; the errors so far.
pub struct DocV {
    pub stack: Seq<FrameV>,
    pub roots: Seq<NodeV>,
    pub errs: Seq<DocErr>,
}

pub open spec fn stray_message() -> Seq<char> {
    "closing tag without an open element"@
}

/// `e` is the document error `d` on the source `s`.
pub open spec fn doc_error_is(e: ParseError, d: DocErr, s: Seq<char>) -> bool {
    match d {
        DocErr::Item(v) => error_is(e, v, s),
        DocErr::Mismatch { start, end, expected, found } => match e {
            ParseError::MismatchedClose { start: a, end: b, expected: x, found: y } => a == start
                && b == end && x@ == expected && y@ == found,
            _ => false,
        },
        DocErr::Stray { start, end } => match e {
            ParseError::Custom { start: a, end: b, message } => a == start && b == end && message@
                == stray_message(),
            _ => false,
        },
    }
}

/// `n` added to the innermost open element, or to the top level.
pub open spec fn add_node(d: DocV, n: NodeV) -> DocV {
    if d.stack.len() == 0 {
        DocV { roots: d.roots.push(n), ..d }
    } else {
        let f = d.stack.last();
        DocV { stack: d.stack.drop_last().push(FrameV { children: f.children.push(n), ..f }), ..d }
    }
}

/// Closes the innermost open element.
pub open spec fn close_top(d: DocV) -> DocV {
    let f = d.stack.last();
    add_node(
        DocV { stack: d.stack.drop_last(), ..d },
        NodeV::Elem {
            name: Some(f.name),
            kind: f.kind,
            attrs: f.attrs,
            children: f.children,
            self_closing: false,
        },
    )
}

/// Closes every open element, innermost first.
pub open spec fn close_all(d: DocV) -> DocV
    decreases d.stack.len(),
{
    if d.stack.len() == 0 {
        d
    } else {
        close_all(close_top(d))
    }
}

pub open spec fn leaf(name: Seq<char>, attrs: Seq<AttrV>, self_closing: bool) -> NodeV {
    NodeV::Elem { name: Some(name), kind: kind_of(name), attrs, children: Seq::empty(), self_closing }
}

/// Reads the item at `i` into the state: text is added; an opening tag opens
/// an element unless it closes itself; a closing tag closes the innermost
/// element if it names it and is an error otherwise; an item that fails
/// records its error, and an element read in part is kept without children.
pub open spec fn step(s: Seq<char>, i: int, d: DocV) -> DocV {
    match item_spec(s, i) {
        ItemOut::TextItem { text, .. } => add_node(d, NodeV::Text(text)),
        ItemOut::NoTag { err, .. } => DocV { errs: d.errs.push(DocErr::Item(err)), ..d },
        ItemOut::Tag { closing, name, attrs, self_closing, end, err } => if err is Some {
            let d1 = DocV { errs: d.errs.push(DocErr::Item(err->0)), ..d };
            if closing {
                d1
            } else {
                add_node(d1, leaf(name, attrs, false))
            }
        } else if closing {
            if d.stack.len() > 0 && d.stack.last().name == name {
                close_top(d)
            } else if d.stack.len() > 0 {
                DocV {
                    errs: d.errs.push(
                        DocErr::Mismatch { start: i, end, expected: d.stack.last().name, found: name },
                    ),
                    ..d
                }
            } else {
                DocV { errs: d.errs.push(DocErr::Stray { start: i, end }), ..d }
            }
        } else if self_closing {
            add_node(d, leaf(name, attrs, true))
        } else {
            DocV {
                stack: d.stack.push(FrameV { name, kind: kind_of(name), attrs, children: Seq::empty() }),
                ..d
            }
        },
    }
}

/// Reads the items from `i` to the end, then closes what is still open.
pub open spec fn doc_from(s: Seq<char>, i: int, d: DocV) -> DocV
    decreases s.len() - i,
    via doc_from_decreases
{
    if 0 <= i < s.len() {
        doc_from(s, item_end(item_spec(s, i)), step(s, i, d))
    } else {
        close_all(d)
    }
}

#[via_fn]
proof fn doc_from_decreases(s: Seq<char>, i: int, d: DocV) {
    if 0 <= i < s.len() {
        lemma_item_spec(s, i);
    }
}

/// The tree of the top-level nodes: none, the one node, or a wrapper around
/// several.
pub open spec fn root_of(roots: Seq<NodeV>) -> Option<NodeV> {
    if roots.len() == 0 {
        None
    } else if roots.len() == 1 {
        Some(roots[0])
    } else {
        Some(
            NodeV::Elem {
                name: None,
                kind: ElemTy::Wrapper,
                attrs: Seq::empty(),
                children: roots,
                self_closing: false,
            },
        )
    }
}

pub open spec fn empty_doc() -> DocV {
    DocV { stack: Seq::empty(), roots: Seq::empty(), errs: Seq::empty() }
}

/// The tree and the errors of the document `s`.
pub open spec fn parse_spec(s: Seq<char>) -> (Option<NodeV>, Seq<DocErr>) {
    let d = doc_from(s, 0, empty_doc());
    (root_of(d.roots), d.errs)
}

struct Frame {
    name: String,
    kind: ElemTy,
    attributes: Vec<Attribute>,
    children: Vec<Node>,
}

spec fn frame_view(f: Frame) -> FrameV {
    FrameV { name: f.name@, kind: f.kind, attrs: attrs_view(f.attributes@), children: nodes_view(f.children@) }
}

spec fn frames_view(v: Seq<Frame>) -> Seq<FrameV> {
    v.map_values(|f: Frame| frame_view(f))
}

pub open spec fn errors_are(errs: Seq<ParseError>, d: Seq<DocErr>, s: Seq<char>) -> bool {
    &&& errs.len() == d.len()
    &&& forall|k: int| 0 <= k < errs.len() ==> doc_error_is(#[trigger] errs[k], d[k], s)
}

spec fn state_is(stack: Seq<Frame>, roots: Seq<Node>, errs: Seq<ParseError>, d: DocV, s: Seq<char>) -> bool {
    &&& frames_view(stack) == d.stack
    &&& nodes_view(roots) == d.roots
    &&& errors_are(errs, d.errs, s)
}

/// The view of a sequence of nodes is the view of each node, in order.
pub proof fn lemma_nodes_view_index(v: Seq<Node>, k: int)
    requires
        0 <= k < v.len(),
    ensures
        nodes_view(v).len() == v.len(),
        nodes_view(v)[k] == node_view(v[k]),
    decreases v.len(),
{
    lemma_nodes_view_len(v);
    if k < v.len() - 1 {
        lemma_nodes_view_index(v.drop_last(), k);
    }
}

pub proof fn lemma_nodes_view_len(v: Seq<Node>)
    ensures
        nodes_view(v).len() == v.len(),
    decreases v.len(),
{
    if v.len() > 0 {
        lemma_nodes_view_len(v.drop_last());
    }
}

proof fn lemma_nodes_view_push(v: Seq<Node>, n: Node)
    ensures
        nodes_view(v.push(n)) == nodes_view(v).push(node_view(n)),
{
    assert(v.push(n).drop_last() =~= v);
}

fn add_node_exec(stack: &mut Vec<Frame>, roots: &mut Vec<Node>, n: Node, Ghost(d): Ghost<DocV>)
    requires
        frames_view(old(stack)@) == d.stack,
        nodes_view(old(roots)@) == d.roots,
    ensures
        frames_view(final(stack)@) == add_node(d, node_view(n)).stack,
        nodes_view(final(roots)@) == add_node(d, node_view(n)).roots,
{
    let ghost nv = node_view(n);
    if stack.len() == 0 {
        proof {
            lemma_nodes_view_push(roots@, n);
        }
        roots.push(n);
    } else {
        let ghost st = stack@;
        let mut f = stack.pop().unwrap();
        proof {
            lemma_nodes_view_push(f.children@, n);
        }
        f.children.push(n);
        stack.push(f);
        assert(frames_view(stack@) =~= add_node(d, nv).stack) by {
            assert(st.drop_last() =~= stack@.drop_last());
            assert(frames_view(st).drop_last() =~= frames_view(st.drop_last()));
        }
    }
}

fn close_top_exec(stack: &mut Vec<Frame>, roots: &mut Vec<Node>, Ghost(d): Ghost<DocV>)
    requires
        frames_view(old(stack)@) == d.stack,
        nodes_view(old(roots)@) == d.roots,
        old(stack)@.len() > 0,
    ensures
        frames_view(final(stack)@) == close_top(d).stack,
        nodes_view(final(roots)@) == close_top(d).roots,
{
    let f = stack.pop().unwrap();
    assert(frames_view(stack@) =~= d.stack.drop_last());
    assert(frame_view(f) == d.stack.last());
    let n = Node::Element {
        name: Some(f.name),
        kind: f.kind,
        attributes: f.attributes,
        children: f.children,
        self_closing: false,
    };
    add_node_exec(stack, roots, n, Ghost(DocV { stack: d.stack.drop_last(), ..d }));
}

/// Reads the whole of `src` into one tree. Parsing does not stop at an
/// error: every error is recorded, and the tree holds what was read. Open
/// elements left at the end are closed there.
pub fn elem(src: &str) -> (r: (Option<Node>, Vec<ParseError>))
    requires
        src@.len() + 2 < usize::MAX,
    ensures
        parse_spec(src@).0 is None ==> r.0 is None,
        parse_spec(src@).0 is Some ==> r.0 is Some && node_view(r.0->0) == parse_spec(src@).0->0,
        errors_are(r.1@, parse_spec(src@).1, src@),
{
    let cs = chars_of(src);
    let ghost s = cs@;
    let mut stack: Vec<Frame> = Vec::new();
    let mut roots: Vec<Node> = Vec::new();
    let mut errs: Vec<ParseError> = Vec::new();
    let ghost mut d = empty_doc();
    assert(frames_view(stack@) =~= d.stack);
    assert(nodes_view(roots@) =~= d.roots);
    let mut i: usize = 0;
    while i < cs.len()
        invariant
            s == cs@,
            s == src@,
            s.len() + 2 < usize::MAX,
            i <= s.len(),
            state_is(stack@, roots@, errs@, d, s),
            doc_from(s, i as int, d) == doc_from(s, 0, empty_doc()),
        decreases s.len() - i,
    {
        proof {
            lemma_item_spec(s, i as int);
        }
        let ghost o = item_spec(s, i as int);
        let ghost d2 = step(s, i as int, d);
        let (node, end, err) = parse_item(src, &cs, i);
        let ghost d_old = d;
        match err {
            Some(e) => {
                proof {
                    d = DocV { errs: d.errs.push(DocErr::Item(item_err(o)->0)), ..d };
                }
                push_error(&mut errs, e, Ghost(DocErr::Item(item_err(o)->0)), Ghost(d_old.errs), Ghost(s));
                if let Some(n) = node {
                    if let Node::Element { .. } = n {
                        let ghost d1 = d;
                        add_node_exec(&mut stack, &mut roots, n, Ghost(d1));
                        proof {
                            d = add_node(d1, node_view(n));
                        }
                    }
                }
            },
            None => {
                if let Some(n) = node {
                    match n {
                        Node::CloseMarker(nm) => {
                            let top = stack.len();
                            if top > 0 && stack[top - 1].name == nm {
                                close_top_exec(&mut stack, &mut roots, Ghost(d));
                                proof {
                                    d = close_top(d_old);
                                }
                            } else if top > 0 {
                                let e = ParseError::MismatchedClose {
                                    start: i,
                                    end,
                                    expected: stack[top - 1].name.clone(),
                                    found: nm,
                                };
                                let ghost de = DocErr::Mismatch {
                                    start: i as int,
                                    end: end as int,
                                    expected: d.stack.last().name,
                                    found: o->Tag_name,
                                };
                                push_error(&mut errs, e, Ghost(de), Ghost(d_old.errs), Ghost(s));
                                proof {
                                    d = DocV { errs: d.errs.push(de), ..d };
                                }
                            } else {
                                let e = ParseError::Custom {
                                    start: i,
                                    end,
                                    message: String::from_str("closing tag without an open element"),
                                };
                                let ghost de = DocErr::Stray { start: i as int, end: end as int };
                                push_error(&mut errs, e, Ghost(de), Ghost(d_old.errs), Ghost(s));
                                proof {
                                    d = DocV { errs: d.errs.push(de), ..d };
                                }
                            }
                        },
                        Node::Element { name: Some(nm), kind, attributes, children, self_closing: false } => {
                            let f = Frame { name: nm, kind, attributes, children };
                            assert(children@ =~= Seq::<Node>::empty());
                            assert(nodes_view(children@) =~= Seq::<NodeV>::empty());
                            stack.push(f);
                            proof {
                                d = DocV {
                                    stack: d.stack.push(
                                        FrameV { name: o->Tag_name, kind: kind_of(o->Tag_name), attrs: o->Tag_attrs, children: Seq::empty() },
                                    ),
                                    ..d
                                };
                            }
                            assert(frames_view(stack@) =~= d.stack);
                        },
                        other => {
                            add_node_exec(&mut stack, &mut roots, other, Ghost(d));
                            proof {
                                d = add_node(d_old, node_view(other));
                            }
                        },
                    }
                }
            },
        }
        assert(d == d2);
        i = end;
    }
    assert(doc_from(s, i as int, d) == close_all(d));
    while stack.len() > 0
        invariant
            state_is(stack@, roots@, errs@, d, s),
            close_all(d) == doc_from(s, 0, empty_doc()),
        decreases stack@.len(),
    {
        close_top_exec(&mut stack, &mut roots, Ghost(d));
        proof {
            d = close_top(d);
        }
    }
    let ghost rv = d.roots;
    let ghost rs = roots@;
    proof {
        lemma_nodes_view_len(rs);
        if rs.len() == 1 {
            assert(rs.drop_last() =~= Seq::<Node>::empty());
            assert(rv[0] == node_view(rs[0]));
        }
    }
    let root = if roots.len() == 0 {
        None
    } else if roots.len() == 1 {
        roots.pop()
    } else {
        Some(
            Node::Element {
                name: None,
                kind: ElemTy::Wrapper,
                attributes: Vec::new(),
                children: roots,
                self_closing: false,
            },
        )
    };
    proof {
        assert(attrs_view(Seq::<Attribute>::empty()) =~= Seq::<AttrV>::empty());
    }
    (root, errs)
}

fn push_error(
    errs: &mut Vec<ParseError>,
    e: ParseError,
    Ghost(de): Ghost<DocErr>,
    Ghost(ds): Ghost<Seq<DocErr>>,
    Ghost(s): Ghost<Seq<char>>,
)
    requires
        errors_are(old(errs)@, ds, s),
        doc_error_is(e, de, s),
    ensures
        errors_are(final(errs)@, ds.push(de), s),
{
    errs.push(e);
    assert forall|k: int| 0 <= k < errs@.len() implies doc_error_is(
        #[trigger] errs@[k],
        ds.push(de)[k],
        s,
    ) by {
        if k < errs@.len() - 1 {
            assert(errs@[k] == old(errs)@[k]);
        }
    }
}

} // verus!

//! The whole pipeline on one source: parse, then generate the module.
use crate::ast::Node;
use crate::codegen::{compile_spec, enter_spec, kids, render_spec, walk_kids_spec, walk_spec, Parser, UnitV};
use crate::doc::{
    elem, errors_are, lemma_nodes_view_index, lemma_nodes_view_len, node_view, nodes_view, parse_spec,
};
use crate::markup::ParseError;
use vstd::prelude::*;

verus! {

/// What compiling one source gives.
#[derive(Debug)]
pub struct Compiled {
    /// The tree read from the source, if anything could be read.
    pub tree: Option<Node>,
    /// The module text; absent when there is no tree.
    pub module: Option<String>,
    /// The style text, for a stylesheet of its own.
    pub style: String,
    /// Every parse error, in source order.
    pub errors: Vec<ParseError>,
}

/// Compiles `src`: reads the tree and its errors, and, when there is a
/// tree, renders its module. A module is rendered even when there were
/// errors, so that it can be inspected.
pub fn parse(src: &str) -> (r: Compiled)
    requires
        src@.len() + 2 < usize::MAX,
    ensures
        r.tree is Some == parse_spec(src@).0 is Some,
        r.tree is Some ==> node_view(r.tree->0) == parse_spec(src@).0->0,
        errors_are(r.errors@, parse_spec(src@).1, src@),
        r.module is Some == r.tree is Some,
        r.tree is Some ==> r.module->0@ == render_spec(compile_spec(r.tree->0)),
        r.tree is Some ==> r.style@ == compile_spec(r.tree->0).style,
        r.tree is None ==> r.style@.len() == 0,
{
    let (tree, errors) = elem(src);
    match tree {
        Some(t) => {
            let unit = Parser::new(&t);
            let module = unit.render();
            let style = unit.style();
            Compiled { tree: Some(t), module: Some(module), style, errors }
        },
        None => Compiled { tree: None, module: None, style: String::new(), errors },
    }
}

/// Trees with the same view are walked alike.
pub proof fn lemma_walk_view(u: UnitV, a: Node, b: Node)
    requires
        node_view(a) == node_view(b),
    ensures
        walk_spec(u, a) == walk_spec(u, b),
    decreases a, 1int, 0int,
{
    assert(enter_spec(u, a) == enter_spec(u, b));
    lemma_walk_kids_view(enter_spec(u, a), a, b, 0);
}

pub proof fn lemma_walk_kids_view(u: UnitV, a: Node, b: Node, k: int)
    requires
        node_view(a) == node_view(b),
    ensures
        walk_kids_spec(u, a, k) == walk_kids_spec(u, b, k),
    decreases a, 0int, kids(a).len() - k,
{
    lemma_nodes_view_len(kids(a));
    lemma_nodes_view_len(kids(b));
    if a is Element {
        assert(nodes_view(kids(a)) == nodes_view(kids(b)));
    }
    assert(kids(a).len() == kids(b).len());
    if 0 <= k < kids(a).len() {
        lemma_nodes_view_index(kids(a), k);
        lemma_nodes_view_index(kids(b), k);
        lemma_walk_view(u, kids(a)[k], kids(b)[k]);
        lemma_walk_kids_view(walk_spec(u, kids(a)[k]), a, b, k + 1);
    }
}

/// Determinism: the module text depends on the tree's view alone, so
/// trees that read the same compile to byte-identical text.
pub proof fn law_same_tree_same_module(a: Node, b: Node)
    requires
        node_view(a) == node_view(b),
    ensures
        compile_spec(a) == compile_spec(b),
        render_spec(compile_spec(a)) == render_spec(compile_spec(b)),
{
    lemma_walk_view(crate::codegen::initial_unit(), a, b);
}

/// Determinism of the pipeline: any two trees that `parse` may return for
/// one source give byte-identical module text.
pub proof fn law_parse_deterministic(src: Seq<char>, a: Node, b: Node)
    requires
        parse_spec(src).0 is Some,
        node_view(a) == parse_spec(src).0->0,
        node_view(b) == parse_spec(src).0->0,
    ensures
        render_spec(compile_spec(a)) == render_spec(compile_spec(b)),
{
    law_same_tree_same_module(a, b);
}

} // verus!

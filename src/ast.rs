//! The syntax tree of a component source, and the reading of a tag head from
//! tokens.
use crate::chars::is_ident_start;
use crate::lex::{tokens_view, Token, TokenV};
use vstd::prelude::*;
use vstd::string::*;

verus! {

/// What an element stands for.
#[derive(Clone, Copy, Debug, PartialEq, Eq, Structural, PartialOrd, Ord)]
pub enum ElemTy {
    /// A nameless node grouping several top-level siblings.
    Wrapper,
    /// An invocation of another component: the name starts with an upper-case letter.
    Component,
    /// A plain markup element.
    HTML,
}

/// The value of an attribute.
#[derive(Debug, Clone, PartialEq, Eq)]
pub enum AttrValue {
    /// Text between single or double quotes.
    StaticText(String),
    /// Source text between braces, kept as it stands.
    DynamicExpr(String),
}

#[derive(Debug, Clone, PartialEq, Eq)]
pub struct Attribute {
    pub name: String,
    pub value: AttrValue,
}

#[derive(Debug, PartialEq, Eq)]
pub enum Node {
    /// A run of characters outside any tag.
    Text(String),
    /// A marker `<!--name` that carries no content.
    Comment(String),
    /// A closing tag `</name>`.
    CloseMarker(String),
    Element {
        /// `None` exactly when `kind` is `Wrapper`.
        name: Option<String>,
        kind: ElemTy,
        attributes: Vec<Attribute>,
        children: Vec<Node>,
        self_closing: bool,
    },
}

/// The kind of a named element: a component when the name starts with an
/// upper-case letter, plain markup otherwise.
pub open spec fn kind_of(name: Seq<char>) -> ElemTy {
    if name.len() > 0 && 'A' <= name[0] && name[0] <= 'Z' {
        ElemTy::Component
    } else {
        ElemTy::HTML
    }
}

/// Classifies an element by its name.
pub fn classify(name: &str) -> (r: ElemTy)
    ensures
        r == kind_of(name@),
{
    if name.unicode_len() > 0 {
        let c = name.get_char(0);
        if 'A' <= c && c <= 'Z' {
            return ElemTy::Component;
        }
    }
    ElemTy::HTML
}

/// What a tag head read from tokens is.
pub enum HeadV {
    Open(Seq<char>),
    Close(Seq<char>),
    Marker(Seq<char>),
}

/// The tag head at the start of a token sequence: `<name` opens an element,
/// `</name` closes one, and `<!--name` is a marker.
pub open spec fn head_of(t: Seq<TokenV>) -> Option<HeadV> {
    if t.len() >= 2 && t[0] is LessThan && t[1] is Ident {
        Some(HeadV::Open(t[1]->Ident_0))
    } else if t.len() >= 3 && t[0] is LessThan && t[1] is Slash && t[2] is Ident {
        Some(HeadV::Close(t[2]->Ident_0))
    } else if t.len() >= 5 && t[0] is LessThan && t[1] is Bang && t[2] is Dash && t[3] is Dash
        && t[4] is Ident {
        Some(HeadV::Marker(t[4]->Ident_0))
    } else {
        None
    }
}

/// `n` is the node that the tag head `h` gives: an element opened by a head
/// has no attributes and no children yet.
pub open spec fn is_head_node(n: Node, h: HeadV) -> bool {
    match h {
        HeadV::Open(name) => match n {
            Node::Element { name: Some(s), kind, attributes, children, self_closing } => {
                &&& s@ == name
                &&& kind == kind_of(name)
                &&& attributes@.len() == 0
                &&& children@.len() == 0
                &&& !self_closing
            },
            _ => false,
        },
        HeadV::Close(name) => n is CloseMarker && n->CloseMarker_0@ == name,
        HeadV::Marker(name) => n is Comment && n->Comment_0@ == name,
    }
}

impl Node {
    /// Reads the tag head at the start of `tokens`. The token grammar has no
    /// quote tokens, so attributes are read by the character-level parser.
    pub fn from_tokens(tokens: &Vec<Token>) -> (r: Option<Node>)
        ensures
            r is Some == head_of(tokens_view(tokens@)) is Some,
            r is Some ==> is_head_node(r->0, head_of(tokens_view(tokens@))->0),
    {
        let ghost t = tokens_view(tokens@);
        assert(t.len() == tokens@.len());
        if tokens.len() < 2 {
            return None;
        }
        assert(t[0] == tokens@[0]@ && t[1] == tokens@[1]@);
        match (&tokens[0], &tokens[1]) {
            (Token::LessThan, Token::Ident(name)) => {
                let kind = classify(name.as_str());
                Some(
                    Node::Element {
                        name: Some(name.clone()),
                        kind,
                        attributes: Vec::new(),
                        children: Vec::new(),
                        self_closing: false,
                    },
                )
            },
            (Token::LessThan, Token::Slash) => {
                if tokens.len() < 3 {
                    return None;
                }
                assert(t[2] == tokens@[2]@);
                match &tokens[2] {
                    Token::Ident(name) => Some(Node::CloseMarker(name.clone())),
                    _ => None,
                }
            },
            (Token::LessThan, Token::Bang) => {
                if tokens.len() < 5 {
                    return None;
                }
                assert(t[2] == tokens@[2]@ && t[3] == tokens@[3]@ && t[4] == tokens@[4]@);
                match (&tokens[2], &tokens[3], &tokens[4]) {
                    (Token::Dash, Token::Dash, Token::Ident(name)) => Some(
                        Node::Comment(name.clone()),
                    ),
                    _ => None,
                }
            },
            _ => None,
        }
    }
}

/// Classification: an identifier whose first character is an upper-case
/// letter names a component; any other identifier names a plain element.
pub proof fn law_kind_by_case(name: Seq<char>)
    requires
        name.len() > 0,
        is_ident_start(name[0]),
    ensures
        (kind_of(name) == ElemTy::Component) == ('A' <= name[0] && name[0] <= 'Z'),
        (kind_of(name) == ElemTy::HTML) == !('A' <= name[0] && name[0] <= 'Z'),
{
}

} // verus!

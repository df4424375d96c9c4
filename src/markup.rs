//! The character-level markup grammar:
//!
//! ```text
//! Element   := '<' '/'? Name Attribute* '/'? '>'
//! Attribute := Name '=' ( '{' RawUntil('}') '}' | '"' RawUntil('"') '"' | '\'' RawUntil('\'') '\'' )
//! Text      := CharsNot('<')+
//! ```
//!
//! Whitespace may stand around names, attributes and `=`. A closing tag is
//! written `</name>`. In raw text a backslash escapes the character after it.
use crate::ast::{classify, kind_of, AttrValue, Attribute, Node};
use crate::chars::{
    chars_of, ident_end, is_ident_char, is_ident_start, is_space, is_ident_start_exec, lemma_ident_end, lemma_space_end,
    scan_ident, skip_space, space_end,
};
use vstd::prelude::*;
use vstd::string::*;

verus! {

/// A structured parse error. Offsets count characters of the source.
#[derive(Debug, Clone, PartialEq, Eq)]
pub enum ParseError {
    /// A quote or brace opened at `open_start..open_end` and not closed
    /// before the input ended at `at`.
    UnclosedDelimiter { open_start: usize, open_end: usize, delimiter: char, at: usize },
    /// No alternative of the grammar matched at `start..end`; `found` is the
    /// character there, `None` at the end of the input.
    Unexpected { start: usize, end: usize, found: Option<char>, expected: Vec<String> },
    /// A closing tag at `start..end` names `found` where `expected` is open.
    MismatchedClose { start: usize, end: usize, expected: String, found: String },
    /// Any other constraint of the grammar.
    Custom { start: usize, end: usize, message: String },
}

/// The mathematical value of an error that the grammar gives.
pub enum ErrV {
    Unclosed { open: int, delim: char, at: int },
    Unexpected { at: int, expected: Seq<Seq<char>> },
}

pub open spec fn strings_view(v: Seq<String>) -> Seq<Seq<char>> {
    v.map_values(|x: String| x@)
}

/// `e` is the error `v` on the source `s`.
pub open spec fn error_is(e: ParseError, v: ErrV, s: Seq<char>) -> bool {
    match v {
        ErrV::Unclosed { open, delim, at } => e == ParseError::UnclosedDelimiter {
            open_start: open as usize,
            open_end: (open + 1) as usize,
            delimiter: delim,
            at: at as usize,
        },
        ErrV::Unexpected { at, expected } => match e {
            ParseError::Unexpected { start, end, found, expected: ex } => {
                &&& start == at
                &&& (if at < s.len() {
                    end == at + 1 && found == Some(s[at])
                } else {
                    end == at && found is None
                })
                &&& strings_view(ex@) == expected
            },
            _ => false,
        },
    }
}

pub open spec fn expect_ident() -> Seq<Seq<char>> {
    seq!["identifier"@]
}

pub open spec fn expect_equal() -> Seq<Seq<char>> {
    seq!["="@]
}

/// The three forms an attribute value may take.
pub open spec fn expect_value() -> Seq<Seq<char>> {
    seq!["{"@, "\""@, "'"@]
}

pub open spec fn expect_close() -> Seq<Seq<char>> {
    seq![">"@]
}

/// The character that closes a value opened by `c`.
pub open spec fn closer(c: char) -> char {
    if c == '{' {
        '}'
    } else {
        c
    }
}

pub open spec fn is_value_open(c: char) -> bool {
    c == '{' || c == '"' || c == '\''
}

/// The index of the first unescaped `d` at or after `i`, or the length of
/// `s` if there is none.
pub open spec fn close_at(s: Seq<char>, i: int, d: char) -> int
    decreases s.len() - i,
{
    if i < 0 || i >= s.len() {
        s.len() as int
    } else if s[i] == d {
        i
    } else if s[i] == '\\' {
        if i + 1 >= s.len() {
            s.len() as int
        } else {
            close_at(s, i + 2, d)
        }
    } else {
        close_at(s, i + 1, d)
    }
}

/// The index of the first `<` at or after `i`, or the length of `s`.
pub open spec fn text_end(s: Seq<char>, i: int) -> int
    decreases s.len() - i,
{
    if i < 0 || i >= s.len() {
        s.len() as int
    } else if s[i] == '<' {
        i
    } else {
        text_end(s, i + 1)
    }
}

pub proof fn lemma_close_at(s: Seq<char>, i: int, d: char)
    requires
        0 <= i,
    ensures
        close_at(s, i, d) == s.len() || (i <= close_at(s, i, d) < s.len() && s[close_at(s, i, d)]
            == d),
        close_at(s, i, d) <= s.len(),
        i <= s.len() ==> i <= close_at(s, i, d),
    decreases s.len() - i,
{
    if i < s.len() && s[i] != d {
        if s[i] == '\\' {
            if i + 1 < s.len() {
                lemma_close_at(s, i + 2, d);
            }
        } else {
            lemma_close_at(s, i + 1, d);
        }
    }
}

pub proof fn lemma_text_end(s: Seq<char>, i: int)
    requires
        0 <= i <= s.len(),
    ensures
        i <= text_end(s, i) <= s.len(),
        text_end(s, i) < s.len() ==> s[text_end(s, i)] == '<',
        forall|k: int| i <= k < text_end(s, i) ==> s[k] != '<',
    decreases s.len() - i,
{
    if i < s.len() && s[i] != '<' {
        lemma_text_end(s, i + 1);
    }
}

/// An attribute as the grammar reads it: its name, whether the value was
/// written in braces, and the raw text of the value.
pub struct AttrV {
    pub name: Seq<char>,
    pub dynamic: bool,
    pub text: Seq<char>,
}

impl View for Attribute {
    type V = AttrV;

    open spec fn view(&self) -> AttrV {
        match self.value {
            AttrValue::StaticText(t) => AttrV { name: self.name@, dynamic: false, text: t@ },
            AttrValue::DynamicExpr(t) => AttrV { name: self.name@, dynamic: true, text: t@ },
        }
    }
}

pub open spec fn attrs_view(v: Seq<Attribute>) -> Seq<AttrV> {
    v.map_values(|a: Attribute| a@)
}

/// The outcome of reading one attribute.
pub enum AttrOut {
    Parsed { attr: AttrV, end: int },
    Failed(ErrV),
}

/// Reads the attribute that starts at `i`.
pub open spec fn attr_spec(s: Seq<char>, i: int) -> AttrOut {
    if !(0 <= i < s.len() && is_ident_start(s[i])) {
        AttrOut::Failed(ErrV::Unexpected { at: i, expected: expect_ident() })
    } else {
        let n = ident_end(s, i + 1);
        let p = space_end(s, n);
        if !(p < s.len() && s[p] == '=') {
            AttrOut::Failed(ErrV::Unexpected { at: p, expected: expect_equal() })
        } else {
            let q = space_end(s, p + 1);
            if !(q < s.len() && is_value_open(s[q])) {
                AttrOut::Failed(ErrV::Unexpected { at: q, expected: expect_value() })
            } else {
                let e = close_at(s, q + 1, closer(s[q]));
                if e >= s.len() {
                    AttrOut::Failed(ErrV::Unclosed { open: q, delim: s[q], at: s.len() as int })
                } else {
                    AttrOut::Parsed {
                        attr: AttrV {
                            name: s.subrange(i, n),
                            dynamic: s[q] == '{',
                            text: s.subrange(q + 1, e),
                        },
                        end: e + 1,
                    }
                }
            }
        }
    }
}

pub proof fn lemma_attr_spec(s: Seq<char>, i: int)
    requires
        0 <= i <= s.len(),
    ensures
        attr_spec(s, i) is Parsed ==> i < attr_spec(s, i)->end <= s.len(),
{
    if 0 <= i < s.len() && is_ident_start(s[i]) {
        lemma_ident_end(s, i + 1);
        let n = ident_end(s, i + 1);
        lemma_space_end(s, n);
        let p = space_end(s, n);
        if p < s.len() {
            lemma_space_end(s, p + 1);
            let q = space_end(s, p + 1);
            if q < s.len() {
                lemma_close_at(s, q + 1, closer(s[q]));
            }
        }
    }
}

/// `r` is the outcome `o` of reading an attribute of `s`.
pub open spec fn attr_result_is(r: Result<(Attribute, usize), ParseError>, o: AttrOut, s: Seq<char>) -> bool {
    match o {
        AttrOut::Parsed { attr, end } => r is Ok && r->Ok_0.0@ == attr && r->Ok_0.1 == end,
        AttrOut::Failed(v) => r is Err && error_is(r->Err_0, v, s),
    }
}

/// The attributes read one after another from `i`, each after optional
/// whitespace. The list ends before the first position that does not start
/// an identifier; an attribute that fails after its name ends it with that
/// error. Gives the attributes, where reading stopped, and the error.
pub open spec fn attrs_spec(s: Seq<char>, i: int) -> (Seq<AttrV>, int, Option<ErrV>)
    decreases s.len() - i, 0int,
    via attrs_spec_decreases
{
    let p = space_end(s, i);
    if !(0 <= i <= s.len()) || !(p < s.len() && is_ident_start(s[p])) {
        (Seq::empty(), i, None)
    } else {
        match attr_spec(s, p) {
            AttrOut::Parsed { attr, end } => {
                let rest = attrs_spec(s, end);
                (seq![attr] + rest.0, rest.1, rest.2)
            },
            AttrOut::Failed(e) => (Seq::empty(), i, Some(e)),
        }
    }
}

#[via_fn]
proof fn attrs_spec_decreases(s: Seq<char>, i: int) {
    if 0 <= i <= s.len() {
        lemma_space_end(s, i);
        lemma_attr_spec(s, space_end(s, i));
    }
}

/// The text of `src` from character `i` to `j`.
fn text_of(src: &str, i: usize, j: usize) -> (r: String)
    requires
        i <= j <= src@.len(),
    ensures
        r@ == src@.subrange(i as int, j as int),
{
    String::from_str(src.substring_char(i, j))
}

/// An `Unexpected` error at `at` with the given expected forms.
fn unexpected(s: &Vec<char>, at: usize, expected: Vec<String>) -> (r: ParseError)
    requires
        at <= s@.len(),
    ensures
        error_is(r, ErrV::Unexpected { at: at as int, expected: strings_view(expected@) }, s@),
{
    if at < s.len() {
        ParseError::Unexpected { start: at, end: at + 1, found: Some(s[at]), expected }
    } else {
        ParseError::Unexpected { start: at, end: at, found: None, expected }
    }
}

fn expected_ident() -> (r: Vec<String>)
    ensures
        strings_view(r@) == expect_ident(),
{
    let r = vec![String::from_str("identifier")];
    assert(strings_view(r@) =~= expect_ident());
    r
}

fn expected_equal() -> (r: Vec<String>)
    ensures
        strings_view(r@) == expect_equal(),
{
    let r = vec![String::from_str("=")];
    assert(strings_view(r@) =~= expect_equal());
    r
}

fn expected_value() -> (r: Vec<String>)
    ensures
        strings_view(r@) == expect_value(),
{
    let r = vec![String::from_str("{"), String::from_str("\""), String::from_str("'")];
    assert(strings_view(r@) =~= expect_value());
    r
}

fn expected_close() -> (r: Vec<String>)
    ensures
        strings_view(r@) == expect_close(),
{
    let r = vec![String::from_str(">")];
    assert(strings_view(r@) =~= expect_close());
    r
}

/// Returns `close_at(s, i, d)`.
fn find_close(s: &Vec<char>, i: usize, d: char) -> (r: usize)
    requires
        i <= s@.len(),
        s@.len() < usize::MAX,
    ensures
        r as int == close_at(s@, i as int, d),
{
    proof {
        lemma_close_at(s@, i as int, d);
    }
    let mut j: usize = i;
    while j < s.len() && s[j] != d
        invariant
            j <= s@.len(),
            close_at(s@, j as int, d) == close_at(s@, i as int, d),
        decreases s@.len() - j,
    {
        if s[j] == '\\' {
            if j + 1 >= s.len() {
                return s.len();
            }
            j = j + 2;
        } else {
            j = j + 1;
        }
    }
    j
}

/// Reads the attribute that starts at character `i` of `cs`, the characters
/// of `src`; on success gives it with the index after it.
pub fn parse_attr(src: &str, cs: &Vec<char>, i: usize) -> (r: Result<(Attribute, usize), ParseError>)
    requires
        cs@ == src@,
        i <= cs@.len(),
        cs@.len() < usize::MAX,
    ensures
        attr_result_is(r, attr_spec(cs@, i as int), cs@),
{
    let ghost s = cs@;
    if !(i < cs.len() && is_ident_start_exec(cs[i])) {
        return Err(unexpected(cs, i, expected_ident()));
    }
    let n = scan_ident(cs, i + 1);
    let p = skip_space(cs, n);
    if !(p < cs.len() && cs[p] == '=') {
        return Err(unexpected(cs, p, expected_equal()));
    }
    let q = skip_space(cs, p + 1);
    if !(q < cs.len() && (cs[q] == '{' || cs[q] == '"' || cs[q] == '\'')) {
        return Err(unexpected(cs, q, expected_value()));
    }
    let open = cs[q];
    let d = if open == '{' {
        '}'
    } else {
        open
    };
    let e = find_close(cs, q + 1, d);
    proof {
        lemma_close_at(s, q + 1, d);
    }
    if e >= cs.len() {
        return Err(
            ParseError::UnclosedDelimiter {
                open_start: q,
                open_end: q + 1,
                delimiter: open,
                at: cs.len(),
            },
        );
    }
    let name = text_of(src, i, n);
    let text = text_of(src, q + 1, e);
    let value = if open == '{' {
        AttrValue::DynamicExpr(text)
    } else {
        AttrValue::StaticText(text)
    };
    Ok((Attribute { name, value }, e + 1))
}

/// Reads one attribute from the whole of `src`.
pub fn attr(src: &str) -> (r: Result<Attribute, Vec<ParseError>>)
    requires
        src@.len() < usize::MAX,
    ensures
        match attr_spec(src@, 0) {
            AttrOut::Parsed { attr, end } => r is Ok && r->Ok_0@ == attr,
            AttrOut::Failed(v) => r is Err && r->Err_0@.len() == 1 && error_is(
                r->Err_0@[0],
                v,
                src@,
            ),
        },
{
    let cs = chars_of(src);
    match parse_attr(src, &cs, 0) {
        Ok((a, _)) => Ok(a),
        Err(e) => Err(vec![e]),
    }
}

impl Node {
    /// Reads the attribute list that follows a tag name at character `i`:
    /// gives `attrs_spec(cs, i)`.
    pub fn parse_attributes(src: &str, cs: &Vec<char>, i: usize) -> (r: (
        Vec<Attribute>,
        usize,
        Option<ParseError>,
    ))
        requires
            cs@ == src@,
            i <= cs@.len(),
            cs@.len() < usize::MAX,
        ensures
            attrs_view(r.0@) == attrs_spec(cs@, i as int).0,
            r.1 == attrs_spec(cs@, i as int).1,
            r.2 is Some == attrs_spec(cs@, i as int).2 is Some,
            r.2 is Some ==> error_is(r.2->0, attrs_spec(cs@, i as int).2->0, cs@),
    {
        let ghost s = cs@;
        let mut attrs: Vec<Attribute> = Vec::new();
        let mut pos: usize = i;
        while pos <= cs.len()
            invariant
                s == cs@,
                s == src@,
                s.len() < usize::MAX,
                i <= pos <= s.len(),
                attrs_spec(s, i as int).0 == attrs_view(attrs@) + attrs_spec(s, pos as int).0,
                attrs_spec(s, i as int).1 == attrs_spec(s, pos as int).1,
                attrs_spec(s, i as int).2 == attrs_spec(s, pos as int).2,
            decreases s.len() - pos,
        {
            let p = skip_space(cs, pos);
            if !(p < cs.len() && is_ident_start_exec(cs[p])) {
                assert(attrs_spec(s, pos as int).0 =~= Seq::empty());
                assert(attrs_view(attrs@) =~= attrs_view(attrs@) + Seq::<AttrV>::empty());
                return (attrs, pos, None);
            }
            proof {
                lemma_attr_spec(s, p as int);
            }
            match parse_attr(src, cs, p) {
                Ok((a, end)) => {
                    let ghost before = attrs_view(attrs@);
                    attrs.push(a);
                    assert(attrs_view(attrs@) =~= before.push(a@));
                    assert(before + attrs_spec(s, pos as int).0 =~= attrs_view(attrs@)
                        + attrs_spec(s, end as int).0);
                    pos = end;
                },
                Err(e) => {
                    assert(attrs_spec(s, pos as int).0 =~= Seq::empty());
                    assert(attrs_view(attrs@) =~= attrs_view(attrs@) + Seq::<AttrV>::empty());
                    return (attrs, pos, Some(e));
                },
            }
        }
        (attrs, pos, None)
    }
}

/// One item of markup: a text run, or a tag.
pub enum ItemOut {
    TextItem { text: Seq<char>, end: int },
    /// A tag whose name was read; with `err`, what was read before it failed.
    Tag {
        closing: bool,
        name: Seq<char>,
        attrs: Seq<AttrV>,
        self_closing: bool,
        end: int,
        err: Option<ErrV>,
    },
    /// A `<` that no name follows.
    NoTag { err: ErrV, end: int },
}

/// Reads the item that starts at `i`. A `<` starts a tag; a tag whose
/// attributes or end fail keeps what was read before the failure.
pub open spec fn item_spec(s: Seq<char>, i: int) -> ItemOut {
    if !(0 <= i < s.len()) || s[i] != '<' {
        ItemOut::TextItem { text: s.subrange(i, text_end(s, i)), end: text_end(s, i) }
    } else {
        let closing = i + 1 < s.len() && s[i + 1] == '/';
        let k = space_end(s, if closing { i + 2 } else { i + 1 });
        if !(k < s.len() && is_ident_start(s[k])) {
            ItemOut::NoTag { err: ErrV::Unexpected { at: k, expected: expect_ident() }, end: k }
        } else {
            let n = ident_end(s, k + 1);
            let a = attrs_spec(s, n);
            if a.2 is Some {
                ItemOut::Tag {
                    closing,
                    name: s.subrange(k, n),
                    attrs: a.0,
                    self_closing: false,
                    end: a.1,
                    err: a.2,
                }
            } else {
                let p = space_end(s, a.1);
                let sc = p < s.len() && s[p] == '/';
                let q = if sc { p + 1 } else { p };
                if !(q < s.len() && s[q] == '>') {
                    ItemOut::Tag {
                        closing,
                        name: s.subrange(k, n),
                        attrs: a.0,
                        self_closing: false,
                        end: q,
                        err: Some(ErrV::Unexpected { at: q, expected: expect_close() }),
                    }
                } else {
                    ItemOut::Tag {
                        closing,
                        name: s.subrange(k, n),
                        attrs: a.0,
                        self_closing: sc,
                        end: q + 1,
                        err: None,
                    }
                }
            }
        }
    }
}

pub open spec fn item_end(o: ItemOut) -> int {
    match o {
        ItemOut::TextItem { end, .. } => end,
        ItemOut::Tag { end, .. } => end,
        ItemOut::NoTag { end, .. } => end,
    }
}

pub open spec fn item_err(o: ItemOut) -> Option<ErrV> {
    match o {
        ItemOut::TextItem { .. } => None,
        ItemOut::Tag { err, .. } => err,
        ItemOut::NoTag { err, .. } => Some(err),
    }
}

/// `n` is the node that the item `o` gives: text, a closing marker, or an
/// element without children; nothing where no name was read.
pub open spec fn item_node_is(n: Option<Node>, o: ItemOut) -> bool {
    match o {
        ItemOut::TextItem { text, .. } => n is Some && n->0 is Text && n->0->Text_0@ == text,
        ItemOut::NoTag { .. } => n is None,
        ItemOut::Tag { closing, name, attrs, self_closing, .. } => n is Some && if closing {
            n->0 is CloseMarker && n->0->CloseMarker_0@ == name
        } else {
            match n->0 {
                Node::Element { name: Some(nm), kind, attributes, children, self_closing: sc } => {
                    &&& nm@ == name
                    &&& kind == kind_of(name)
                    &&& attrs_view(attributes@) == attrs
                    &&& children@.len() == 0
                    &&& sc == self_closing
                },
                _ => false,
            }
        },
    }
}

pub proof fn lemma_item_spec(s: Seq<char>, i: int)
    requires
        0 <= i <= s.len(),
    ensures
        i <= item_end(item_spec(s, i)) <= s.len(),
        i < s.len() ==> i < item_end(item_spec(s, i)),
{
    lemma_text_end(s, i);
    if 0 <= i < s.len() && s[i] == '<' {
        let closing = i + 1 < s.len() && s[i + 1] == '/';
        lemma_space_end(s, if closing { i + 2 } else { i + 1 });
        let k = space_end(s, if closing { i + 2 } else { i + 1 });
        if k < s.len() && is_ident_start(s[k]) {
            lemma_ident_end(s, k + 1);
            let n = ident_end(s, k + 1);
            lemma_attrs_spec(s, n);
            let a = attrs_spec(s, n);
            lemma_space_end(s, a.1);
        }
    }
}

pub proof fn lemma_attrs_spec(s: Seq<char>, i: int)
    requires
        0 <= i <= s.len(),
    ensures
        i <= attrs_spec(s, i).1 <= s.len(),
    decreases s.len() - i,
{
    lemma_space_end(s, i);
    let p = space_end(s, i);
    if p < s.len() && is_ident_start(s[p]) {
        lemma_attr_spec(s, p);
        if let AttrOut::Parsed { end, .. } = attr_spec(s, p) {
            lemma_attrs_spec(s, end);
        }
    }
}

/// Returns `text_end(s, i)`.
fn scan_text(s: &Vec<char>, i: usize) -> (r: usize)
    requires
        i <= s@.len(),
    ensures
        r as int == text_end(s@, i as int),
{
    proof {
        lemma_text_end(s@, i as int);
    }
    let mut j: usize = i;
    while j < s.len() && s[j] != '<'
        invariant
            i <= j <= s@.len(),
            text_end(s@, j as int) == text_end(s@, i as int),
        decreases s@.len() - j,
    {
        j = j + 1;
    }
    j
}

/// Reads the item at character `i` of `cs`, the characters of `src`: gives
/// the node, the index after it, and the error that stopped it.
pub fn parse_item(src: &str, cs: &Vec<char>, i: usize) -> (r: (Option<Node>, usize, Option<ParseError>))
    requires
        cs@ == src@,
        i <= cs@.len(),
        cs@.len() + 2 < usize::MAX,
    ensures
        item_node_is(r.0, item_spec(cs@, i as int)),
        r.1 == item_end(item_spec(cs@, i as int)),
        r.2 is Some == item_err(item_spec(cs@, i as int)) is Some,
        r.2 is Some ==> error_is(r.2->0, item_err(item_spec(cs@, i as int))->0, cs@),
{
    let ghost s = cs@;
    if !(i < cs.len()) || cs[i] != '<' {
        let j = scan_text(cs, i);
        proof {
            lemma_text_end(s, i as int);
        }
        return (Some(Node::Text(text_of(src, i, j))), j, None);
    }
    let closing = i + 1 < cs.len() && cs[i + 1] == '/';
    let k = skip_space(
        cs,
        if closing {
            i + 2
        } else {
            i + 1
        },
    );
    if !(k < cs.len() && is_ident_start_exec(cs[k])) {
        return (None, k, Some(unexpected(cs, k, expected_ident())));
    }
    let n = scan_ident(cs, k + 1);
    let name = text_of(src, k, n);
    let (attributes, a_end, a_err) = Node::parse_attributes(src, cs, n);
    proof {
        lemma_attrs_spec(s, n as int);
    }
    let mut self_closing = false;
    let mut end = a_end;
    let mut err = a_err;
    if err.is_none() {
        let p = skip_space(cs, a_end);
        let sc = p < cs.len() && cs[p] == '/';
        let q = if sc {
            p + 1
        } else {
            p
        };
        if !(q < cs.len() && cs[q] == '>') {
            end = q;
            err = Some(unexpected(cs, q, expected_close()));
        } else {
            end = q + 1;
            self_closing = sc;
        }
    }
    let node = if closing {
        Node::CloseMarker(name)
    } else {
        let kind = classify(name.as_str());
        Node::Element { name: Some(name), kind, attributes, children: Vec::new(), self_closing }
    };
    (Some(node), end, err)
}

/// `s[i..j]` is an identifier that ends at `j`.
pub open spec fn ident_at(s: Seq<char>, i: int, j: int) -> bool {
    &&& 0 <= i < j <= s.len()
    &&& is_ident_start(s[i])
    &&& forall|k: int| i <= k < j ==> is_ident_char(#[trigger] s[k])
    &&& (j == s.len() || !is_ident_char(s[j]))
}

/// A name: a non-empty identifier.
pub open spec fn is_name(t: Seq<char>) -> bool {
    &&& t.len() > 0
    &&& is_ident_start(t[0])
    &&& forall|k: int| 0 <= k < t.len() ==> is_ident_char(#[trigger] t[k])
}

proof fn lemma_ident_end_at(s: Seq<char>, i: int, j: int)
    requires
        0 <= i <= j <= s.len(),
        forall|k: int| i <= k < j ==> is_ident_char(#[trigger] s[k]),
        j == s.len() || !is_ident_char(s[j]),
    ensures
        ident_end(s, i) == j,
    decreases j - i,
{
    if i < j {
        lemma_ident_end_at(s, i + 1, j);
    }
}

proof fn lemma_close_at_plain(s: Seq<char>, i: int, j: int, d: char)
    requires
        0 <= i <= j < s.len(),
        s[j] == d,
        forall|k: int| i <= k < j ==> s[k] != d && s[k] != '\\',
    ensures
        close_at(s, i, d) == j,
    decreases j - i,
{
    if i < j {
        lemma_close_at_plain(s, i + 1, j, d);
    }
}

/// The source `<name a="v" />`.
pub open spec fn self_closing_source(name: Seq<char>, a: Seq<char>, v: Seq<char>) -> Seq<char> {
    seq!['<'] + name + seq![' '] + a + seq!['=', '"'] + v + seq!['"', ' ', '/', '>']
}

/// Self-closing elements: `<name a="v" />`, for any names and any value
/// without quotes or backslashes, reads as one self-closing element named
/// `name` with the single static attribute `a` = `v`, and no error.
pub proof fn law_self_closing(name: Seq<char>, a: Seq<char>, v: Seq<char>)
    requires
        is_name(name),
        is_name(a),
        forall|k: int| 0 <= k < v.len() ==> v[k] != '"' && v[k] != '\\',
    ensures
        item_spec(self_closing_source(name, a, v), 0) == (ItemOut::Tag {
            closing: false,
            name,
            attrs: seq![AttrV { name: a, dynamic: false, text: v }],
            self_closing: true,
            end: self_closing_source(name, a, v).len() as int,
            err: None,
        }),
{
    let s = self_closing_source(name, a, v);
    let n0: int = 1 + name.len() as int;
    let a0: int = n0 + 1;
    let eq: int = a0 + a.len() as int;
    let q: int = eq + 1;
    let e: int = q + 1 + v.len() as int;
    assert(s.len() == e + 4);
    assert(s[0] == '<');
    assert forall|k: int| 0 <= k < name.len() implies s[1 + k] == name[k] by {}
    assert(s[n0] == ' ');
    assert forall|k: int| 0 <= k < a.len() implies s[a0 + k] == a[k] by {}
    assert(s[eq] == '=');
    assert(s[q] == '"');
    assert forall|k: int| 0 <= k < v.len() implies s[q + 1 + k] == v[k] by {}
    assert(s[e] == '"');
    assert(s[e + 1] == ' ');
    assert(s[e + 2] == '/');
    assert(s[e + 3] == '>');
    // the tag name
    assert(s[1] == name[0]);
    assert(space_end(s, 1) == 1);
    assert forall|k: int| 1 <= k < n0 implies is_ident_char(#[trigger] s[k]) by {
        assert(s[1 + (k - 1)] == name[k - 1]);
    }
    lemma_ident_end_at(s, 2, n0);
    assert(s.subrange(1, n0) =~= name);
    // the attribute
    assert(space_end(s, n0 + 1) == a0);
    assert(space_end(s, n0) == a0);
    assert(s[a0] == a[0]);
    assert forall|k: int| a0 + 1 <= k < eq implies is_ident_char(#[trigger] s[k]) by {
        assert(s[a0 + (k - a0)] == a[k - a0]);
    }
    lemma_ident_end_at(s, a0 + 1, eq);
    assert(space_end(s, eq) == eq);
    assert(space_end(s, eq + 1) == q);
    assert forall|k: int| q + 1 <= k < e implies s[k] != '"' && s[k] != '\\' by {
        assert(s[q + 1 + (k - q - 1)] == v[k - q - 1]);
    }
    lemma_close_at_plain(s, q + 1, e, '"');
    assert(s.subrange(a0, eq) =~= a);
    assert(s.subrange(q + 1, e) =~= v);
    assert(attr_spec(s, a0) == (AttrOut::Parsed {
        attr: AttrV { name: a, dynamic: false, text: v },
        end: e + 1,
    }));
    // the end of the list and of the tag
    assert(space_end(s, e + 2) == e + 2);
    assert(space_end(s, e + 1) == e + 2);
    assert(attrs_spec(s, e + 1) == (Seq::<AttrV>::empty(), e + 1, None::<ErrV>));
    assert(attrs_spec(s, n0).0 =~= seq![AttrV { name: a, dynamic: false, text: v }]);
}

} // verus!

//! The tokenizer: source text to typed tokens with character-offset spans.
use crate::chars::{
    chars_of, digits_end, ident_end, is_digit, is_digit_exec, is_ident_start, is_ident_start_exec,
    lemma_digits_end, lemma_ident_end, scan_digits, scan_ident,
};
use vstd::prelude::*;
use vstd::string::*;

verus! {

#[derive(Debug, Clone, PartialEq, Eq)]
pub enum Token {
    LessThan,
    GreaterThan,
    Equal,
    Plus,
    Dash,
    Star,
    Slash,
    LeftParen,
    RightParen,
    LeftBrace,
    RightBrace,
    LeftBracket,
    RightBracket,
    Comma,
    Dot,
    Colon,
    Bang,
    Hash,
    Ident(String),
    Number,
    Eol,
    Error,
}

/// The mathematical value of a token: an identifier carries its characters.
pub enum TokenV {
    LessThan,
    GreaterThan,
    Equal,
    Plus,
    Dash,
    Star,
    Slash,
    LeftParen,
    RightParen,
    LeftBrace,
    RightBrace,
    LeftBracket,
    RightBracket,
    Comma,
    Dot,
    Colon,
    Bang,
    Hash,
    Ident(Seq<char>),
    Number,
    Eol,
    Error,
}

impl View for Token {
    type V = TokenV;

    open spec fn view(&self) -> TokenV {
        match self {
            Token::LessThan => TokenV::LessThan,
            Token::GreaterThan => TokenV::GreaterThan,
            Token::Equal => TokenV::Equal,
            Token::Plus => TokenV::Plus,
            Token::Dash => TokenV::Dash,
            Token::Star => TokenV::Star,
            Token::Slash => TokenV::Slash,
            Token::LeftParen => TokenV::LeftParen,
            Token::RightParen => TokenV::RightParen,
            Token::LeftBrace => TokenV::LeftBrace,
            Token::RightBrace => TokenV::RightBrace,
            Token::LeftBracket => TokenV::LeftBracket,
            Token::RightBracket => TokenV::RightBracket,
            Token::Comma => TokenV::Comma,
            Token::Dot => TokenV::Dot,
            Token::Colon => TokenV::Colon,
            Token::Bang => TokenV::Bang,
            Token::Hash => TokenV::Hash,
            Token::Ident(s) => TokenV::Ident(s@),
            Token::Number => TokenV::Number,
            Token::Eol => TokenV::Eol,
            Token::Error => TokenV::Error,
        }
    }
}

/// A token with the character offsets `start..end` it was read from.
#[derive(Debug, Clone, PartialEq, Eq)]
pub struct Spanned {
    pub token: Token,
    pub start: usize,
    pub end: usize,
}

impl View for Spanned {
    type V = (TokenV, int, int);

    open spec fn view(&self) -> (TokenV, int, int) {
        (self.token@, self.start as int, self.end as int)
    }
}

/// The token that a single punctuation character (or a line end) stands for.
pub open spec fn punct_of(c: char) -> Option<TokenV> {
    if c == '<' {
        Some(TokenV::LessThan)
    } else if c == '>' {
        Some(TokenV::GreaterThan)
    } else if c == '=' {
        Some(TokenV::Equal)
    } else if c == '+' {
        Some(TokenV::Plus)
    } else if c == '-' {
        Some(TokenV::Dash)
    } else if c == '*' {
        Some(TokenV::Star)
    } else if c == '/' {
        Some(TokenV::Slash)
    } else if c == '(' {
        Some(TokenV::LeftParen)
    } else if c == ')' {
        Some(TokenV::RightParen)
    } else if c == '{' {
        Some(TokenV::LeftBrace)
    } else if c == '}' {
        Some(TokenV::RightBrace)
    } else if c == '[' {
        Some(TokenV::LeftBracket)
    } else if c == ']' {
        Some(TokenV::RightBracket)
    } else if c == ',' {
        Some(TokenV::Comma)
    } else if c == '.' {
        Some(TokenV::Dot)
    } else if c == ':' {
        Some(TokenV::Colon)
    } else if c == '!' {
        Some(TokenV::Bang)
    } else if c == '#' {
        Some(TokenV::Hash)
    } else if c == '\n' || c == ';' {
        Some(TokenV::Eol)
    } else {
        None
    }
}

/// The tokens of `s` from index `i` on. Spaces and tabs are skipped;
/// identifiers and digit runs are maximal; any other character that is no
/// punctuation is an error token of its own.
pub open spec fn lex_from(s: Seq<char>, i: int) -> Seq<(TokenV, int, int)>
    decreases s.len() - i, 0int,
    via lex_from_decreases
{
    if i < 0 || i >= s.len() {
        Seq::empty()
    } else if s[i] == ' ' || s[i] == '\t' {
        lex_from(s, i + 1)
    } else if punct_of(s[i]) is Some {
        seq![(punct_of(s[i])->0, i, i + 1)] + lex_from(s, i + 1)
    } else if is_ident_start(s[i]) {
        let j = ident_end(s, i + 1);
        seq![(TokenV::Ident(s.subrange(i, j)), i, j)] + lex_from(s, j)
    } else if is_digit(s[i]) {
        let j = digits_end(s, i + 1);
        seq![(TokenV::Number, i, j)] + lex_from(s, j)
    } else {
        seq![(TokenV::Error, i, i + 1)] + lex_from(s, i + 1)
    }
}

#[via_fn]
proof fn lex_from_decreases(s: Seq<char>, i: int) {
    if 0 <= i < s.len() {
        lemma_ident_end(s, i + 1);
        lemma_digits_end(s, i + 1);
    }
}

/// The tokens of a whole text.
pub open spec fn lex_spec(s: Seq<char>) -> Seq<(TokenV, int, int)> {
    lex_from(s, 0)
}

pub open spec fn spanned_view(v: Seq<Spanned>) -> Seq<(TokenV, int, int)> {
    v.map_values(|t: Spanned| t@)
}

pub open spec fn tokens_view(v: Seq<Token>) -> Seq<TokenV> {
    v.map_values(|t: Token| t@)
}

fn punct_exec(c: char) -> (r: Option<Token>)
    ensures
        r is Some == punct_of(c) is Some,
        r is Some ==> r->0@ == punct_of(c)->0,
{
    match c {
        '<' => Some(Token::LessThan),
        '>' => Some(Token::GreaterThan),
        '=' => Some(Token::Equal),
        '+' => Some(Token::Plus),
        '-' => Some(Token::Dash),
        '*' => Some(Token::Star),
        '/' => Some(Token::Slash),
        '(' => Some(Token::LeftParen),
        ')' => Some(Token::RightParen),
        '{' => Some(Token::LeftBrace),
        '}' => Some(Token::RightBrace),
        '[' => Some(Token::LeftBracket),
        ']' => Some(Token::RightBracket),
        ',' => Some(Token::Comma),
        '.' => Some(Token::Dot),
        ':' => Some(Token::Colon),
        '!' => Some(Token::Bang),
        '#' => Some(Token::Hash),
        '\n' | ';' => Some(Token::Eol),
        _ => None,
    }
}

fn copy_token(t: &Token) -> (r: Token)
    ensures
        r@ == t@,
{
    match t {
        Token::Ident(s) => Token::Ident(s.clone()),
        Token::LessThan => Token::LessThan,
        Token::GreaterThan => Token::GreaterThan,
        Token::Equal => Token::Equal,
        Token::Plus => Token::Plus,
        Token::Dash => Token::Dash,
        Token::Star => Token::Star,
        Token::Slash => Token::Slash,
        Token::LeftParen => Token::LeftParen,
        Token::RightParen => Token::RightParen,
        Token::LeftBrace => Token::LeftBrace,
        Token::RightBrace => Token::RightBrace,
        Token::LeftBracket => Token::LeftBracket,
        Token::RightBracket => Token::RightBracket,
        Token::Comma => Token::Comma,
        Token::Dot => Token::Dot,
        Token::Colon => Token::Colon,
        Token::Bang => Token::Bang,
        Token::Hash => Token::Hash,
        Token::Number => Token::Number,
        Token::Eol => Token::Eol,
        Token::Error => Token::Error,
    }
}

/// Tokenizes `src`, giving each token the character offsets it spans.
pub fn lex_spanned(src: &str) -> (r: Vec<Spanned>)
    requires
        src@.len() < usize::MAX,
    ensures
        spanned_view(r@) == lex_spec(src@),
{
    let cs = chars_of(src);
    let ghost s = cs@;
    let mut out: Vec<Spanned> = Vec::new();
    let mut i: usize = 0;
    while i < cs.len()
        invariant
            s == cs@,
            s == src@,
            s.len() < usize::MAX,
            i <= s.len(),
            spanned_view(out@) + lex_from(s, i as int) == lex_from(s, 0),
        decreases s.len() - i,
    {
        let c = cs[i];
        let ghost before = spanned_view(out@);
        if c == ' ' || c == '\t' {
            i = i + 1;
        } else {
            let (tok, j) = match punct_exec(c) {
                Some(t) => (t, i + 1),
                None => {
                    if is_ident_start_exec(c) {
                        let j = scan_ident(&cs, i + 1);
                        let name = String::from_str(src.substring_char(i, j));
                        (Token::Ident(name), j)
                    } else if is_digit_exec(c) {
                        let j = scan_digits(&cs, i + 1);
                        (Token::Number, j)
                    } else {
                        (Token::Error, i + 1)
                    }
                },
            };
            let sp = Spanned { token: tok, start: i, end: j };
            assert(seq![sp@] + lex_from(s, j as int) == lex_from(s, i as int));
            out.push(sp);
            assert(spanned_view(out@) =~= before.push(sp@));
            assert(before + lex_from(s, i as int) =~= before.push(sp@) + lex_from(s, j as int));
            i = j;
        }
    }
    assert(spanned_view(out@) =~= spanned_view(out@) + lex_from(s, i as int));
    out
}

impl Token {
    /// Tokenizes `src`, dropping the spans.
    pub fn lex(src: &str) -> (r: Vec<Token>)
        requires
            src@.len() < usize::MAX,
        ensures
            tokens_view(r@) == lex_spec(src@).map_values(|t: (TokenV, int, int)| t.0),
    {
        let spanned = lex_spanned(src);
        let mut out: Vec<Token> = Vec::new();
        let mut k: usize = 0;
        while k < spanned.len()
            invariant
                k <= spanned@.len(),
                spanned_view(spanned@) == lex_spec(src@),
                out@.len() == k,
                forall|j: int| 0 <= j < k ==> (#[trigger] out@[j])@ == spanned@[j].token@,
            decreases spanned@.len() - k,
        {
            out.push(copy_token(&spanned[k].token));
            k = k + 1;
        }
        assert(tokens_view(out@) =~= lex_spec(src@).map_values(|t: (TokenV, int, int)| t.0));
        out
    }
}

} // verus!

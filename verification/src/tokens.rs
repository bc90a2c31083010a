use vstd::prelude::*;

verus! {

// The already-lexed inputs that the pattern compiler receives.
//
// The compiler never lexes source text itself: its callers hand it token
// trees and derive-style declarations that have already been split into
// idents, punctuation, literals and delimited groups.  These types carry
// exactly what the compiler reads of such input, as plain values.

/// The delimiter of a token group.
#[derive(Debug)]
pub enum Delim {
    Bracket,
    Parenthesis,
    Brace,
    /// An undelimited (transparent) group.
    Plain,
}

/// One node of a token tree.
#[derive(Debug)]
pub enum Tok {
    /// An identifier or other word, as written.
    Ident(String),
    /// A single punctuation character.
    Punct(char),
    /// A literal, as written (a string literal keeps its quotes).
    Literal(String),
    /// A delimited group of nested tokens.
    Group(Delim, Vec<Tok>),
}

/// One attribute of a derive-style declaration: its path (segments joined
/// with `::`) and the tokens that follow it.
#[derive(Debug)]
pub struct DeriveAttr {
    pub path: String,
    pub tokens: Vec<Tok>,
}

/// A derive-style declaration: the name of the annotated item and its
/// attributes, in source order.
#[derive(Debug)]
pub struct DeriveDecl {
    pub ident: String,
    pub attrs: Vec<DeriveAttr>,
}

/// The text of the first literal or ident found under `t`, descending into
/// nested groups through their first token.
pub open spec fn literal_text_spec(t: Tok) -> Option<Seq<char>>
    decreases t,
{
    match t {
        Tok::Literal(s) => Some(s@),
        Tok::Ident(s) => Some(s@),
        Tok::Punct(_) => None,
        Tok::Group(_, ts) => if ts@.len() > 0 {
            literal_text_spec(ts@[0])
        } else {
            None
        },
    }
}

} // verus!

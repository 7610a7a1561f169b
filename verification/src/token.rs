//! A structured token, the shape in which annotation contents, shared
//! attribute arguments and dispatch templates reach the generator.
//!
//! The surrounding lexer is an outside collaborator: it hands the generator
//! tokens already split into identifiers, punctuation, literals and delimited
//! groups. A group's contents are carried verbatim as text; the generator
//! never looks inside one.
use vstd::prelude::*;

verus! {

/// The delimiter of a token group.
#[derive(Clone, Copy, Debug, PartialEq, Eq, Structural)]
pub enum Delim {
    /// `( ... )`
    Paren,
    /// `{ ... }`
    Brace,
    /// `[ ... ]`
    Bracket,
    /// An invisible delimiter.
    Bare,
}

impl DeepView for Delim {
    type V = Delim;

    open spec fn deep_view(&self) -> Delim {
        *self
    }
}

/// One token of an annotation, argument list or template.
#[derive(Debug, PartialEq, Eq)]
pub enum Token {
    /// A word: a keyword, a name, or the wildcard marker `_`.
    Ident(String),
    /// A single punctuation character.
    Punct(char),
    /// A literal, carried as its source text.
    Literal(String),
    /// A delimited group; its contents are carried verbatim as text.
    Group(Delim, String),
}

/// The mathematical value of a token.
#[verifier::ext_equal]
pub enum TokenModel {
    Ident(Seq<char>),
    Punct(char),
    Literal(Seq<char>),
    Group(Delim, Seq<char>),
}

impl View for Token {
    type V = TokenModel;

    open spec fn view(&self) -> TokenModel {
        match self {
            Token::Ident(s) => TokenModel::Ident(s@),
            Token::Punct(c) => TokenModel::Punct(*c),
            Token::Literal(s) => TokenModel::Literal(s@),
            Token::Group(d, s) => TokenModel::Group(*d, s@),
        }
    }
}

impl DeepView for Token {
    type V = TokenModel;

    open spec fn deep_view(&self) -> TokenModel {
        self.view()
    }
}

/// Clones a token list; the copy has the same value.
pub(crate) fn clone_tokens(v: &Vec<Token>) -> (r: Vec<Token>)
    ensures
        r.deep_view() == v.deep_view(),
{
    let ghost vm = v.deep_view();
    let mut r: Vec<Token> = Vec::new();
    for i in 0..v.len()
        invariant
            vm == v.deep_view(),
            r@.len() == i,
            forall|k: int| 0 <= k < i ==> #[trigger] r@[k].deep_view() == vm[k],
    {
        proof {
            assert(vm[i as int] == v@[i as int].deep_view());
        }
        r.push(v[i].clone());
    }
    proof {
        assert forall|k: int| 0 <= k < r@.len() implies r.deep_view()[k] == vm[k] by {
            assert(r.deep_view()[k] == r@[k].deep_view());
        }
        assert(r.deep_view() =~= vm);
    }
    r
}

impl Clone for Token {
    /// Clones a token; the copy has the same value.
    fn clone(&self) -> (r: Self)
        ensures
            r@ == self@,
    {
        match self {
            Token::Ident(s) => Token::Ident(s.clone()),
            Token::Punct(c) => Token::Punct(*c),
            Token::Literal(s) => Token::Literal(s.clone()),
            Token::Group(d, s) => Token::Group(*d, s.clone()),
        }
    }
}

} // verus!

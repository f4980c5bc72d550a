//! The token tree a template is compiled into, and its mathematical view.

use vstd::prelude::*;

verus! {

/// One node of a parsed template: literal text, a substitution point, a
/// gated block, or a generator call with its already-split argument list.
#[derive(Debug, PartialEq)]
pub enum Token {
    /// Raw text, written to the output unchanged.
    Literal(String),
    /// `[[:label]]`: replaced by the content bound to the label.
    Placeholder(String),
    /// `[[?label]]body[[/]]`: the body renders when the condition named by
    /// the label equals the expected polarity.
    Conditional(String, bool, Vec<Token>),
    /// `[[?:label]]body[[/]]`: the body renders when the presence of a
    /// content binding for the label equals the expected polarity.
    ContentConditional(String, bool, Vec<Token>),
    /// `[[+label args...]]`: replaced by the named generator's output.
    Generated(String, Vec<String>),
}

/// The mathematical shape of a `Token`: labels and text as `Seq<char>`,
/// bodies as sequences of views.
pub enum TokenV {
    Literal(Seq<char>),
    Placeholder(Seq<char>),
    Conditional(Seq<char>, bool, Seq<TokenV>),
    ContentConditional(Seq<char>, bool, Seq<TokenV>),
    Generated(Seq<char>, Seq<Seq<char>>),
}

/// The view of one token.
pub open spec fn token_view(t: Token) -> TokenV
    decreases t,
{
    match t {
        Token::Literal(s) => TokenV::Literal(s@),
        Token::Placeholder(l) => TokenV::Placeholder(l@),
        Token::Conditional(l, e, body) => TokenV::Conditional(l@, e, tokens_view(body@)),
        Token::ContentConditional(l, e, body) => TokenV::ContentConditional(
            l@,
            e,
            tokens_view(body@),
        ),
        Token::Generated(l, args) => TokenV::Generated(l@, strings_view(args@)),
    }
}

/// The views of a sequence of tokens, element by element.
pub open spec fn tokens_view(s: Seq<Token>) -> Seq<TokenV>
    decreases s,
{
    if s.len() == 0 {
        Seq::empty()
    } else {
        tokens_view(s.drop_last()).push(token_view(s.last()))
    }
}

/// The views of a sequence of strings, element by element.
pub open spec fn strings_view(s: Seq<String>) -> Seq<Seq<char>> {
    Seq::new(s.len(), |i: int| s[i]@)
}

impl View for Token {
    type V = TokenV;

    open spec fn view(&self) -> TokenV {
        token_view(*self)
    }
}

/// `tokens_view` maps the sequence element by element.
pub proof fn lemma_tokens_view(s: Seq<Token>)
    ensures
        tokens_view(s).len() == s.len(),
        forall|i: int| 0 <= i < s.len() ==> tokens_view(s)[i] == token_view(#[trigger] s[i]),
    decreases s.len(),
{
    if s.len() > 0 {
        lemma_tokens_view(s.drop_last());
        assert forall|i: int| 0 <= i < s.len() implies tokens_view(s)[i] == token_view(
            #[trigger] s[i],
        ) by {
            if i < s.len() - 1 {
                assert(s.drop_last()[i] == s[i]);
            }
        }
    }
}

} // verus!

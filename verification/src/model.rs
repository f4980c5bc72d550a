//! The mathematical model of a binding source and the specification of
//! rendering.
//!
//! A binding source (a `Template`, or a `Shell` chain resolved down to its
//! base) is modelled as a `SourceV`: the token tree it renders, a map from
//! labels to content values, the set of conditions that are true, and the
//! set of labels with a bound generator. Rendering is specified as a
//! partial function on this model: it is `None` exactly when the walk
//! reaches a generator call whose label is bound, since what a generator
//! writes is the generator's own business.

use vstd::prelude::*;

use crate::token::TokenV;

verus! {

/// The model of one content value: either plain text (every scalar renders
/// as its text form) or a nested binding source with its own token tree.
pub enum ValueV {
    Text(Seq<char>),
    Tree(SourceV),
}

/// The model of a binding source.
pub struct SourceV {
    /// The token tree rendered for this source.
    pub tokens: Seq<TokenV>,
    /// Content bindings: label to value.
    pub content: Map<Seq<char>, ValueV>,
    /// The labels of the conditions that are true.
    pub conds: Set<Seq<char>>,
    /// The labels with a generator bound.
    pub gens: Set<Seq<char>>,
}

/// Well-formedness of a source model: its content map is finite (it comes
/// from a finite table) and every nested source is well-formed in turn.
pub open spec fn source_wf(s: SourceV) -> bool
    decreases s,
{
    &&& s.content.dom().finite()
    &&& forall|l: Seq<char>|
        #[trigger] s.content.dom().contains(l) ==> value_wf(s.content[l])
}

/// Well-formedness of one content value.
pub open spec fn value_wf(v: ValueV) -> bool
    decreases v,
{
    match v {
        ValueV::Text(_) => true,
        ValueV::Tree(s) => source_wf(s),
    }
}

/// What rendering `tokens[i..]` against the bindings of `top` produces:
/// `Some(text)` when the output is determined by the model, `None` when the
/// walk reaches a generator call whose label has a bound generator (the
/// output then depends on the generator, which the model does not hold).
///
/// Every lookup goes against `top`, except that a placeholder holding a
/// nested source renders that source's own tokens against that source.
pub open spec fn render_from(tokens: Seq<TokenV>, i: int, top: SourceV) -> Option<Seq<char>>
    decreases top, tokens, tokens.len() - i,
        when source_wf(top)
{
    if i < 0 || i >= tokens.len() {
        Some(Seq::empty())
    } else {
        let head = match tokens[i] {
            TokenV::Literal(t) => Some(t),
            TokenV::Placeholder(l) => {
                if top.content.dom().contains(l) {
                    match top.content[l] {
                        ValueV::Text(t) => Some(t),
                        ValueV::Tree(s2) => render_from(s2.tokens, 0, s2),
                    }
                } else {
                    Some(Seq::empty())
                }
            },
            TokenV::Conditional(l, e, body) => {
                if top.conds.contains(l) == e {
                    render_from(body, 0, top)
                } else {
                    Some(Seq::empty())
                }
            },
            TokenV::ContentConditional(l, e, body) => {
                if top.content.dom().contains(l) == e {
                    render_from(body, 0, top)
                } else {
                    Some(Seq::empty())
                }
            },
            TokenV::Generated(l, _args) => {
                if top.gens.contains(l) {
                    None
                } else {
                    Some(Seq::empty())
                }
            },
        };
        match (head, render_from(tokens, i + 1, top)) {
            (Some(h), Some(rest)) => Some(h + rest),
            _ => None,
        }
    }
}

/// What rendering a whole source produces: its own tokens against itself.
pub open spec fn spec_render(s: SourceV) -> Option<Seq<char>> {
    render_from(s.tokens, 0, s)
}

/// What the walk over `tokens[i..]` writes when the output of each bound
/// generator call is supplied from outside: `gouts` holds one output per
/// call, in the order the walk makes the calls, consumed from the front.
/// Returns the text written and how many outputs were consumed. Together
/// with `render_from` this pins the renderer down on the generator path:
/// a successful render writes exactly `render_out` of the texts its
/// generators actually returned.
pub open spec fn render_out(
    tokens: Seq<TokenV>,
    i: int,
    top: SourceV,
    gouts: Seq<Seq<char>>,
) -> (Seq<char>, nat)
    decreases top, tokens, tokens.len() - i,
        when source_wf(top)
{
    if i < 0 || i >= tokens.len() {
        (Seq::empty(), 0)
    } else {
        let (head, hn) = match tokens[i] {
            TokenV::Literal(t) => (t, 0 as nat),
            TokenV::Placeholder(l) => {
                if top.content.dom().contains(l) {
                    match top.content[l] {
                        ValueV::Text(t) => (t, 0 as nat),
                        ValueV::Tree(s2) => render_out(s2.tokens, 0, s2, gouts),
                    }
                } else {
                    (Seq::empty(), 0 as nat)
                }
            },
            TokenV::Conditional(l, e, body) => {
                if top.conds.contains(l) == e {
                    render_out(body, 0, top, gouts)
                } else {
                    (Seq::empty(), 0 as nat)
                }
            },
            TokenV::ContentConditional(l, e, body) => {
                if top.content.dom().contains(l) == e {
                    render_out(body, 0, top, gouts)
                } else {
                    (Seq::empty(), 0 as nat)
                }
            },
            TokenV::Generated(l, _args) => {
                if top.gens.contains(l) {
                    (
                        if gouts.len() > 0 {
                            gouts[0]
                        } else {
                            Seq::empty()
                        },
                        1 as nat,
                    )
                } else {
                    (Seq::empty(), 0 as nat)
                }
            },
        };
        let (rest, rn) = render_out(tokens, i + 1, top, gouts.skip(hn as int));
        (head + rest, (hn + rn) as nat)
    }
}

} // verus!

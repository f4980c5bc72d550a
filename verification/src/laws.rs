//! General laws of parsing and rendering, stated over the model and
//! proved once for all inputs.

use vstd::prelude::*;

use crate::lexer::{LexToken, spec_lex};
use crate::model::{SourceV, ValueV, render_from, source_wf, spec_render};
use crate::parser::{lit_cons, seq_rem, spec_parse, spec_parse_block};
use crate::token::TokenV;

verus! {

/// Text that holds no construct opener `[[` and no escape character: it
/// passes through the template machinery untouched.
pub open spec fn plain_text(s: Seq<char>) -> bool {
    forall|i: int|
        0 <= i < s.len() ==> ((#[trigger] s[i]) != '\\' && !(s[i] == '[' && i + 1 < s.len()
            && s[i + 1] == '['))
}

/// The literal text of a token run, each token taken verbatim.
spec fn texts(toks: Seq<LexToken>, i: int) -> Seq<char>
    decreases seq_rem(toks, i),
{
    if i < 0 || i >= toks.len() {
        Seq::empty()
    } else {
        toks[i].spec_text() + texts(toks, i + 1)
    }
}

/// Prepending one token shifts the text of the rest by one position.
proof fn lemma_texts_shift(t: LexToken, toks: Seq<LexToken>, i: int)
    requires
        i >= 0,
    ensures
        texts(seq![t] + toks, i + 1) == texts(toks, i),
    decreases seq_rem(toks, i),
{
    if i < toks.len() {
        assert((seq![t] + toks)[i + 1] == toks[i]);
        lemma_texts_shift(t, toks, i + 1);
    }
}

/// Lexing plain text gives no `Begin` marker, and the tokens carry
/// exactly the input text.
proof fn lemma_plain_lex(s: Seq<char>)
    requires
        plain_text(s),
    ensures
        forall|k: int|
            0 <= k < spec_lex(s).len() ==> #[trigger] spec_lex(s)[k] != LexToken::Begin,
        texts(spec_lex(s), 0) == s,
    decreases s.len(),
{
    if s.len() == 0 {
    } else if s[0] == '[' && s.len() >= 2 && s[1] == '[' {
        assert(false);
    } else if s[0] == ']' && s.len() >= 2 && s[1] == ']' {
        let s2 = s.skip(2);
        assert(plain_text(s2)) by {
            assert forall|i: int| 0 <= i < s2.len() implies ((#[trigger] s2[i]) != '\\' && !(
            s2[i] == '[' && i + 1 < s2.len() && s2[i + 1] == '[')) by {
                assert(s2[i] == s[i + 2]);
                if i + 1 < s2.len() {
                    assert(s2[i + 1] == s[i + 3]);
                }
            }
        }
        lemma_plain_lex(s2);
        lemma_texts_shift(LexToken::End, spec_lex(s2), 0);
        assert(texts(spec_lex(s), 0) == LexToken::End.spec_text() + texts(spec_lex(s2), 0));
        assert(LexToken::End.spec_text() + s2 =~= s);
    } else if s[0] == '\\' {
        assert(false);
    } else {
        let s2 = s.skip(1);
        assert(plain_text(s2)) by {
            assert forall|i: int| 0 <= i < s2.len() implies ((#[trigger] s2[i]) != '\\' && !(
            s2[i] == '[' && i + 1 < s2.len() && s2[i + 1] == '[')) by {
                assert(s2[i] == s[i + 1]);
                if i + 1 < s2.len() {
                    assert(s2[i + 1] == s[i + 2]);
                }
            }
        }
        lemma_plain_lex(s2);
        let h = crate::lexer::lex_class(s[0]);
        lemma_texts_shift(h, spec_lex(s2), 0);
        assert(texts(spec_lex(s), 0) == h.spec_text() + texts(spec_lex(s2), 0));
        assert(h.spec_text() == seq![s[0]]);
        assert(seq![s[0]] + s2 =~= s);
    }
}

/// The token run of a text, as the parser leaves it: nothing for empty
/// text, one literal token otherwise.
pub open spec fn literal_run(t: Seq<char>) -> Seq<TokenV> {
    if t.len() == 0 {
        Seq::empty()
    } else {
        seq![TokenV::Literal(t)]
    }
}

/// A token run with no `Begin` marker parses to its literal text.
proof fn lemma_no_begin_block(toks: Seq<LexToken>, i: int)
    requires
        0 <= i,
        forall|k: int| 0 <= k < toks.len() ==> #[trigger] toks[k] != LexToken::Begin,
    ensures
        spec_parse_block(toks, i) == Ok::<_, LexToken>(
            (literal_run(texts(toks, i)), if i <= toks.len() {
                (toks.len() - i) as nat
            } else {
                0
            }),
        ),
    decreases seq_rem(toks, i),
{
    if i < toks.len() {
        lemma_no_begin_block(toks, i + 1);
        let text = toks[i].spec_text();
        let rest = texts(toks, i + 1);
        assert(text.len() > 0);
        if rest.len() == 0 {
            assert(text + rest =~= text);
            assert(lit_cons(text, literal_run(rest)) =~= literal_run(texts(toks, i)));
        } else {
            assert(lit_cons(text, literal_run(rest)) =~= literal_run(text + rest));
        }
    }
}

/// A run of literal tokens renders to exactly its text, whatever the
/// bindings are.
proof fn lemma_render_literal_run(t: Seq<char>, top: SourceV)
    requires
        source_wf(top),
    ensures
        render_from(literal_run(t), 0, top) == Some(t),
{
    if t.len() == 0 {
        assert(render_from(literal_run(t), 0, top) == Some(Seq::<char>::empty()));
        assert(t =~= Seq::<char>::empty());
    } else {
        let run = literal_run(t);
        assert(render_from(run, 1, top) == Some(Seq::<char>::empty()));
        assert(t + Seq::<char>::empty() =~= t);
    }
}

/// Round-trip preservation: text with no `[[` opener and no escape
/// character parses successfully, and the parsed template renders back to
/// exactly that text against any well-formed bindings.
pub proof fn lemma_literal_round_trip(s: Seq<char>, top: SourceV)
    requires
        plain_text(s),
        source_wf(top),
    ensures
        spec_parse(s) matches Ok(ts) && render_from(ts, 0, top) == Some(s),
{
    lemma_plain_lex(s);
    lemma_no_begin_block(spec_lex(s), 0);
    lemma_render_literal_run(texts(spec_lex(s), 0), top);
}

/// An unbound placeholder renders as empty text: a missing binding is
/// never an error.
pub proof fn lemma_placeholder_unbound(l: Seq<char>, top: SourceV)
    requires
        source_wf(top),
        !top.content.dom().contains(l),
    ensures
        render_from(seq![TokenV::Placeholder(l)], 0, top) == Some(Seq::<char>::empty()),
{
    let run = seq![TokenV::Placeholder(l)];
    assert(render_from(run, 1, top) == Some(Seq::<char>::empty()));
    assert(Seq::<char>::empty() + Seq::<char>::empty() =~= Seq::<char>::empty());
}

/// A conditional block renders its body exactly when the condition's
/// value equals the expected polarity; an unbound condition counts as
/// false. Otherwise it renders nothing.
pub proof fn lemma_conditional_gate(l: Seq<char>, e: bool, body: Seq<TokenV>, top: SourceV)
    requires
        source_wf(top),
    ensures
        render_from(seq![TokenV::Conditional(l, e, body)], 0, top) == (if top.conds.contains(l)
            == e {
            render_from(body, 0, top)
        } else {
            Some(Seq::<char>::empty())
        }),
{
    let run = seq![TokenV::Conditional(l, e, body)];
    assert(render_from(run, 1, top) == Some(Seq::<char>::empty()));
    if top.conds.contains(l) == e {
        match render_from(body, 0, top) {
            Some(o) => {
                assert(o + Seq::<char>::empty() =~= o);
            },
            None => (),
        }
    } else {
        assert(Seq::<char>::empty() + Seq::<char>::empty() =~= Seq::<char>::empty());
    }
}

/// Complementary content-conditionals: of two blocks gated on the same
/// label's presence with opposite polarities, exactly the matching one
/// renders.
pub proof fn lemma_content_conditional_complement(
    l: Seq<char>,
    a: Seq<TokenV>,
    b: Seq<TokenV>,
    top: SourceV,
)
    requires
        source_wf(top),
    ensures
        render_from(
            seq![TokenV::ContentConditional(l, true, a), TokenV::ContentConditional(l, false, b)],
            0,
            top,
        ) == (if top.content.dom().contains(l) {
            render_from(a, 0, top)
        } else {
            render_from(b, 0, top)
        }),
{
    let run = seq![
        TokenV::ContentConditional(l, true, a),
        TokenV::ContentConditional(l, false, b),
    ];
    assert(render_from(run, 2, top) == Some(Seq::<char>::empty()));
    if top.content.dom().contains(l) {
        assert(render_from(run, 1, top) == Some(Seq::<char>::empty() + Seq::<char>::empty()));
        match render_from(a, 0, top) {
            Some(o) => {
                assert(o + (Seq::<char>::empty() + Seq::<char>::empty()) =~= o);
            },
            None => (),
        }
    } else {
        match render_from(b, 0, top) {
            Some(o) => {
                assert(o + Seq::<char>::empty() =~= o);
                assert(Seq::<char>::empty() + (o + Seq::<char>::empty()) =~= o);
            },
            None => (),
        }
    }
}

/// A placeholder bound to a nested source renders that source's own token
/// tree against that source's own bindings: what else the outer source
/// binds cannot change the nested output.
pub proof fn lemma_nested_renders_independently(l: Seq<char>, s2: SourceV, top: SourceV)
    requires
        source_wf(top),
        top.content.dom().contains(l),
        top.content[l] == ValueV::Tree(s2),
    ensures
        render_from(seq![TokenV::Placeholder(l)], 0, top) == (match spec_render(s2) {
            Some(o) => Some(o),
            None => None,
        }),
{
    let run = seq![TokenV::Placeholder(l)];
    assert(render_from(run, 1, top) == Some(Seq::<char>::empty()));
    match spec_render(s2) {
        Some(o) => {
            assert(o + Seq::<char>::empty() =~= o);
        },
        None => (),
    }
}

} // verus!
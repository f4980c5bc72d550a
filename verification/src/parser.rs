//! The recursive-descent parser: lexical tokens to the nested `Token`
//! tree.

use vstd::prelude::*;

use crate::lexer::{LexToken, spec_is_whitespace, is_whitespace_char, spec_lex, lex};
use crate::text::{spec_char_text, chars_to_string};
use crate::token::{Token, TokenV, strings_view, token_view, tokens_view};

verus! {

/// How many tokens remain from position `i`, saturating outside the
/// valid range: the parser's termination measure.
pub open spec fn seq_rem(toks: Seq<LexToken>, i: int) -> int {
    if i < 0 {
        toks.len() as int
    } else if i <= toks.len() {
        toks.len() - i
    } else {
        0
    }
}

/// The number of tokens consumed when skipping up to and including the
/// next `End` (or to the end of input): what `[[/...]]` discards after the
/// slash.
pub open spec fn spec_skip_past_end(toks: Seq<LexToken>, i: int) -> nat
    decreases seq_rem(toks, i),
{
    if i < 0 || i >= toks.len() {
        0
    } else if toks[i] == LexToken::End {
        1
    } else {
        1 + spec_skip_past_end(toks, i + 1)
    }
}

/// The text gathered up to the next `term` token, and the number of tokens
/// consumed (the terminator included; at end of input nothing more is
/// consumed). Structural tokens inside the run contribute their literal
/// text.
pub open spec fn spec_scan(toks: Seq<LexToken>, i: int, term: LexToken) -> (Seq<char>, nat)
    decreases seq_rem(toks, i),
{
    if i < 0 || i >= toks.len() {
        (Seq::empty(), 0)
    } else if toks[i] == term {
        (Seq::empty(), 1)
    } else {
        let (t, n) = spec_scan(toks, i + 1, term);
        (toks[i].spec_text() + t, n + 1)
    }
}

/// How a bare (unquoted) generator label run ends.
pub enum GenLabel {
    /// An `End` arrived first: the construct is complete, with no
    /// arguments.
    Closed(Seq<char>),
    /// Whitespace or end of input arrived: arguments may follow.
    Open(Seq<char>),
}

/// The bare generator label starting at `i`, and the tokens consumed.
pub open spec fn spec_scan_bare_label(toks: Seq<LexToken>, i: int, acc: Seq<char>) -> (
    GenLabel,
    nat,
)
    decreases seq_rem(toks, i),
{
    if i < 0 || i >= toks.len() {
        (GenLabel::Open(acc), 0)
    } else {
        match toks[i] {
            LexToken::End => (GenLabel::Closed(acc), 1),
            LexToken::Character(c) => {
                if spec_is_whitespace(c) {
                    (GenLabel::Open(acc), 1)
                } else {
                    let (r, n) = spec_scan_bare_label(toks, i + 1, acc + spec_char_text(c));
                    (r, n + 1)
                }
            },
            t => {
                let (r, n) = spec_scan_bare_label(toks, i + 1, acc + t.spec_text());
                (r, n + 1)
            },
        }
    }
}

/// The length of the run of whitespace `Character` tokens at `i`.
pub open spec fn spec_ws_run(toks: Seq<LexToken>, i: int) -> nat
    decreases seq_rem(toks, i),
{
    if i < 0 || i >= toks.len() {
        0
    } else {
        match toks[i] {
            LexToken::Character(c) => {
                if spec_is_whitespace(c) {
                    1 + spec_ws_run(toks, i + 1)
                } else {
                    0
                }
            },
            _ => 0,
        }
    }
}

/// How a bare (unquoted) generator argument run ends.
pub enum BareArg {
    /// The argument list is over: `Some` carries an argument completed by
    /// an `End`; an `End` met with nothing gathered closes the list with
    /// no further argument, and so does the end of input (a pending
    /// argument is then discarded).
    Finish(Option<Seq<char>>),
    /// Whitespace ended this argument; more may follow.
    More(Seq<char>),
}

/// One bare generator argument starting at `i` with `acc` already
/// gathered, and the tokens consumed. An `End` met outside a quoted run
/// always ends the argument list; whatever follows it is left for the
/// caller.
pub open spec fn spec_scan_bare_arg(toks: Seq<LexToken>, i: int, acc: Seq<char>) -> (BareArg, nat)
    decreases seq_rem(toks, i),
{
    if i < 0 || i >= toks.len() {
        (BareArg::Finish(None), 0)
    } else {
        match toks[i] {
            LexToken::End => {
                if acc.len() > 0 {
                    (BareArg::Finish(Some(acc)), 1)
                } else {
                    (BareArg::Finish(None), 1)
                }
            },
            LexToken::Character(c) => {
                if spec_is_whitespace(c) {
                    (BareArg::More(acc), 1 + spec_ws_run(toks, i + 1))
                } else {
                    let (r, n) = spec_scan_bare_arg(toks, i + 1, acc + spec_char_text(c));
                    (r, n + 1)
                }
            },
            t => {
                let (r, n) = spec_scan_bare_arg(toks, i + 1, acc + t.spec_text());
                (r, n + 1)
            },
        }
    }
}

/// A bare argument run beginning inside the input consumes at least one
/// token.
pub proof fn lemma_bare_arg_consumes(toks: Seq<LexToken>, i: int, acc: Seq<char>)
    requires
        0 <= i < toks.len(),
    ensures
        spec_scan_bare_arg(toks, i, acc).1 >= 1,
{
}

/// The generator argument list starting at `i` (after the label), and the
/// tokens consumed. Each argument is either a quoted run or a bare run;
/// the list ends at an `End` met outside quotes, or at end of input.
pub open spec fn spec_parse_args(toks: Seq<LexToken>, i: int) -> (Seq<Seq<char>>, nat)
    decreases seq_rem(toks, i),
{
    let w = spec_ws_run(toks, i);
    let j = i + w;
    if i < 0 || j >= toks.len() {
        (Seq::empty(), w)
    } else if toks[j] == LexToken::Quote {
        let (arg, n) = spec_scan(toks, j + 1, LexToken::Quote);
        let (rest, m) = spec_parse_args(toks, j + 1 + n);
        (seq![arg] + rest, w + 1 + n + m)
    } else {
        let (r, n) = spec_scan_bare_arg(toks, j, Seq::empty());
        proof {
            lemma_bare_arg_consumes(toks, j, Seq::empty());
        }
        match r {
            BareArg::Finish(Some(a)) => (seq![a], (w + n) as nat),
            BareArg::Finish(None) => (Seq::empty(), (w + n) as nat),
            BareArg::More(a) => {
                let (rest, m) = spec_parse_args(toks, j + n);
                (seq![a] + rest, (w + n + m) as nat)
            },
        }
    }
}

/// The generator construct starting right after `[[+`, and the tokens
/// consumed: a quoted or bare label, then the argument list.
pub open spec fn spec_parse_generator(toks: Seq<LexToken>, i: int) -> (TokenV, nat) {
    if 0 <= i < toks.len() && toks[i] == LexToken::Quote {
        let (label, n) = spec_scan(toks, i + 1, LexToken::Quote);
        let (args, m) = spec_parse_args(toks, i + 1 + n);
        (TokenV::Generated(label, args), 1 + n + m)
    } else {
        let (r, n) = spec_scan_bare_label(toks, i, Seq::empty());
        match r {
            GenLabel::Closed(label) => (TokenV::Generated(label, Seq::empty()), n),
            GenLabel::Open(label) => {
                let (args, m) = spec_parse_args(toks, i + n);
                (TokenV::Generated(label, args), n + m)
            },
        }
    }
}

/// Text prepended to a token run: it melts into a leading literal token,
/// or stands as one of its own.
pub open spec fn lit_cons(text: Seq<char>, rest: Seq<TokenV>) -> Seq<TokenV> {
    if rest.len() > 0 && rest[0] is Literal {
        seq![TokenV::Literal(text + rest[0]->Literal_0)] + rest.skip(1)
    } else {
        seq![TokenV::Literal(text)] + rest
    }
}

/// The block starting at `i`: the sequence of tokens up to a block-end
/// marker or the end of input, and the number of lexical tokens consumed.
/// An unknown construct marker after `[[` is the parse error, and carries
/// that marker.
pub open spec fn spec_parse_block(toks: Seq<LexToken>, i: int) -> Result<
    (Seq<TokenV>, nat),
    LexToken,
>
    decreases seq_rem(toks, i), 1int,
{
    if i < 0 || i >= toks.len() {
        Ok((Seq::empty(), 0))
    } else if toks[i] == LexToken::Begin {
        if i + 1 >= toks.len() {
            // a lone `[[` at the end of input degrades to literal text
            Ok((seq![TokenV::Literal(seq!['[', '['])], 1))
        } else if toks[i + 1] == LexToken::Colon {
            let (label, n) = spec_scan(toks, i + 2, LexToken::End);
            match spec_parse_block(toks, i + 2 + n) {
                Ok((rest, m)) => Ok(
                    (seq![TokenV::Placeholder(label)] + rest, (2 + n + m) as nat),
                ),
                Err(e) => Err(e),
            }
        } else if toks[i + 1] == LexToken::Questionmark {
            match spec_parse_conditional(toks, i + 2) {
                Ok((tok, n)) => match spec_parse_block(toks, i + 2 + n) {
                    Ok((rest, m)) => Ok((seq![tok] + rest, (2 + n + m) as nat)),
                    Err(e) => Err(e),
                },
                Err(e) => Err(e),
            }
        } else if toks[i + 1] == LexToken::Plus {
            let (tok, n) = spec_parse_generator(toks, i + 2);
            match spec_parse_block(toks, i + 2 + n) {
                Ok((rest, m)) => Ok((seq![tok] + rest, (2 + n + m) as nat)),
                Err(e) => Err(e),
            }
        } else if toks[i + 1] == LexToken::Slash {
            let n = spec_skip_past_end(toks, i + 2);
            Ok((Seq::empty(), 2 + n))
        } else {
            Err(toks[i + 1])
        }
    } else {
        match spec_parse_block(toks, i + 1) {
            Ok((rest, m)) => Ok((lit_cons(toks[i].spec_text(), rest), (1 + m) as nat)),
            Err(e) => Err(e),
        }
    }
}

/// The conditional construct starting right after `[[?`: optional
/// negation, optional content test, the label up to `End`, then a nested
/// block as the body.
pub open spec fn spec_parse_conditional(toks: Seq<LexToken>, i: int) -> Result<
    (TokenV, nat),
    LexToken,
>
    decreases seq_rem(toks, i), 0int,
{
    if i < 0 || i >= toks.len() {
        Ok((TokenV::Conditional(Seq::empty(), true, Seq::empty()), 0))
    } else {
        let neg = toks[i] == LexToken::Exclamation;
        let i1 = if neg {
            i + 1
        } else {
            i
        };
        let cc = i1 < toks.len() && toks[i1] == LexToken::Colon;
        let i2 = if cc {
            i1 + 1
        } else {
            i1
        };
        let (label, n) = spec_scan(toks, i2, LexToken::End);
        match spec_parse_block(toks, i2 + n) {
            Ok((body, m)) => {
                let tok = if cc {
                    TokenV::ContentConditional(label, !neg, body)
                } else {
                    TokenV::Conditional(label, !neg, body)
                };
                Ok((tok, ((i2 - i) + n + m) as nat))
            },
            Err(e) => Err(e),
        }
    }
}

/// What parsing a whole character stream produces: the lexical tokens of
/// the stream, parsed as one block.
pub open spec fn spec_parse(chars: Seq<char>) -> Result<Seq<TokenV>, LexToken> {
    match spec_parse_block(spec_lex(chars), 0) {
        Ok((ts, _n)) => Ok(ts),
        Err(e) => Err(e),
    }
}

/// The failure parsing can surface: an unknown construct marker followed
/// `[[`.
#[derive(Debug, PartialEq, Eq, Clone, Copy, Structural)]
pub struct ParseError {
    /// The lexical token that followed `[[`.
    pub marker: LexToken,
}

impl ParseError {
    /// A readable description of the failure, naming the offending
    /// marker.
    pub fn message(&self) -> (r: String)
        ensures
            r@ == "parse error: unknown token type: '"@ + self.marker.spec_text() + "'"@,
    {
        let mut s = String::new();
        s.append("parse error: unknown token type: '");
        let t = self.marker.text();
        s.append(t.as_str());
        s.append("'");
        s
    }
}

/// A peekable cursor over a sequence of lexical tokens.
pub struct Parser {
    /// The lexical tokens being parsed.
    pub tokens: Vec<LexToken>,
    /// How many tokens have been consumed.
    pub pos: usize,
}

impl Parser {
    /// The token sequence.
    pub open spec fn toks(&self) -> Seq<LexToken> {
        self.tokens@
    }

    /// A cursor at the start of `tokens`.
    pub fn new(tokens: Vec<LexToken>) -> (r: Parser)
        ensures
            r.toks() == tokens@,
            r.pos == 0,
    {
        Parser { tokens, pos: 0 }
    }

    /// The next token, without consuming it.
    pub fn peek(&self) -> (r: Option<LexToken>)
        ensures
            r == if self.pos < self.toks().len() {
                Some(self.toks()[self.pos as int])
            } else {
                None::<LexToken>
            },
    {
        if self.pos < self.tokens.len() {
            Some(self.tokens[self.pos])
        } else {
            None
        }
    }

    /// Consumes and returns the next token.
    pub fn next(&mut self) -> (r: Option<LexToken>)
        ensures
            final(self).toks() == old(self).toks(),
            r == if old(self).pos < old(self).toks().len() {
                Some(old(self).toks()[old(self).pos as int])
            } else {
                None::<LexToken>
            },
            final(self).pos == if old(self).pos < old(self).toks().len() {
                old(self).pos + 1
            } else {
                old(self).pos as int
            },
    {
        if self.pos < self.tokens.len() {
            let t = self.tokens[self.pos];
            self.pos = self.pos + 1;
            Some(t)
        } else {
            None
        }
    }

    /// Consumes the next token exactly when it equals `expected`.
    pub fn eat(&mut self, expected: LexToken) -> (r: bool)
        ensures
            final(self).toks() == old(self).toks(),
            r == (old(self).pos < old(self).toks().len() && old(self).toks()[old(self).pos as int]
                == expected),
            final(self).pos == if r {
                old(self).pos + 1
            } else {
                old(self).pos as int
            },
    {
        let eaten = match self.peek() {
            Some(t) => t == expected,
            None => false,
        };
        if eaten {
            let _ = self.next();
        }
        eaten
    }

    /// Consumes the run of whitespace characters at the cursor.
    pub fn eat_while(&mut self)
        ensures
            final(self).toks() == old(self).toks(),
            final(self).pos == old(self).pos + spec_ws_run(old(self).toks(), old(self).pos as int),
        decreases seq_rem(self.toks(), self.pos as int),
    {
        let go = match self.peek() {
            Some(LexToken::Character(c)) => is_whitespace_char(c),
            _ => false,
        };
        if go {
            let _ = self.next();
            self.eat_while();
        }
    }
}

/// Gathers into `buf` the literal text up to and including the next `term`
/// token.
fn scan_until(p: &mut Parser, term: LexToken, buf: &mut Vec<char>)
    ensures
        final(p).toks() == old(p).toks(),
        final(buf)@ == old(buf)@ + spec_scan(old(p).toks(), old(p).pos as int, term).0,
        final(p).pos == old(p).pos + spec_scan(old(p).toks(), old(p).pos as int, term).1,
    decreases seq_rem(p.toks(), p.pos as int),
{
    match p.next() {
        None => (),
        Some(t) => {
            if t == term {
                return ;
            }
            t.push_to_buf(buf);
            scan_until(p, term, buf);
        },
    }
}

/// Gathers a bare generator label into `buf`; true means an `End` closed
/// the whole construct.
fn scan_bare_label(p: &mut Parser, buf: &mut Vec<char>) -> (r: bool)
    ensures
        final(p).toks() == old(p).toks(),
        ({
            let (g, n) = spec_scan_bare_label(old(p).toks(), old(p).pos as int, old(buf)@);
            &&& final(p).pos == old(p).pos + n
            &&& g == if r {
                GenLabel::Closed(final(buf)@)
            } else {
                GenLabel::Open(final(buf)@)
            }
        }),
    decreases seq_rem(p.toks(), p.pos as int),
{
    match p.next() {
        None => false,
        Some(t) => {
            if t == LexToken::End {
                true
            } else {
                let ws = match t {
                    LexToken::Character(c) => is_whitespace_char(c),
                    _ => false,
                };
                if ws {
                    false
                } else {
                    t.push_to_buf(buf);
                    scan_bare_label(p, buf)
                }
            }
        },
    }
}

/// How one bare generator argument ended.
enum BareArgEnd {
    /// An `End` closed the list and the gathered argument counts.
    CloseWith,
    /// The list is over with no further argument: an `End` arrived before
    /// any text, or the input ended.
    CloseDrop,
    /// Whitespace ended this argument; more may follow.
    Next,
}

/// Gathers one bare generator argument into `buf`. An `End` always closes
/// the argument list.
fn scan_bare_arg(p: &mut Parser, buf: &mut Vec<char>) -> (r: BareArgEnd)
    ensures
        final(p).toks() == old(p).toks(),
        ({
            let (a, n) = spec_scan_bare_arg(old(p).toks(), old(p).pos as int, old(buf)@);
            &&& final(p).pos == old(p).pos + n
            &&& a == match r {
                BareArgEnd::CloseWith => BareArg::Finish(Some(final(buf)@)),
                BareArgEnd::CloseDrop => BareArg::Finish(None),
                BareArgEnd::Next => BareArg::More(final(buf)@),
            }
        }),
    decreases seq_rem(p.toks(), p.pos as int),
{
    match p.next() {
        None => BareArgEnd::CloseDrop,
        Some(t) => {
            if t == LexToken::End {
                if buf.len() > 0 {
                    BareArgEnd::CloseWith
                } else {
                    BareArgEnd::CloseDrop
                }
            } else {
                let ws = match t {
                    LexToken::Character(c) => is_whitespace_char(c),
                    _ => false,
                };
                if ws {
                    p.eat_while();
                    BareArgEnd::Next
                } else {
                    t.push_to_buf(buf);
                    scan_bare_arg(p, buf)
                }
            }
        },
    }
}

/// Appending one string to a string list appends its view.
proof fn lemma_strings_view_push(s: Seq<String>, x: String)
    ensures
        strings_view(s.push(x)) =~= strings_view(s) + seq![x@],
{
}

/// Gathers the generator argument list into `args`.
fn parse_args(p: &mut Parser, args: &mut Vec<String>)
    ensures
        final(p).toks() == old(p).toks(),
        strings_view(final(args)@) == strings_view(old(args)@) + spec_parse_args(
            old(p).toks(),
            old(p).pos as int,
        ).0,
        final(p).pos == old(p).pos + spec_parse_args(old(p).toks(), old(p).pos as int).1,
    decreases seq_rem(p.toks(), p.pos as int),
{
    let ghost toks = p.toks();
    let ghost pos0 = p.pos as int;
    p.eat_while();
    let ghost j = p.pos as int;
    if p.eat(LexToken::Quote) {
        let mut a: Vec<char> = Vec::new();
        scan_until(p, LexToken::Quote, &mut a);
        let ghost pre = args@;
        let sa = chars_to_string(&a);
        args.push(sa);
        proof {
            lemma_strings_view_push(pre, sa);
        }
        parse_args(p, args);
        proof {
            assert(strings_view(args@) =~= strings_view(old(args)@) + spec_parse_args(
                toks,
                pos0,
            ).0);
        }
    } else {
        let mut a: Vec<char> = Vec::new();
        match scan_bare_arg(p, &mut a) {
            BareArgEnd::CloseWith => {
                let ghost pre = args@;
                let sa = chars_to_string(&a);
                args.push(sa);
                proof {
                    lemma_strings_view_push(pre, sa);
                    assert(strings_view(args@) =~= strings_view(old(args)@) + spec_parse_args(
                        toks,
                        pos0,
                    ).0);
                }
            },
            BareArgEnd::CloseDrop => {
                proof {
                    assert(strings_view(args@) =~= strings_view(old(args)@) + spec_parse_args(
                        toks,
                        pos0,
                    ).0);
                }
            },
            BareArgEnd::Next => {
                let ghost pre = args@;
                let sa = chars_to_string(&a);
                args.push(sa);
                proof {
                    lemma_strings_view_push(pre, sa);
                    if 0 <= j < toks.len() {
                        lemma_bare_arg_consumes(toks, j, Seq::empty());
                    }
                }
                parse_args(p, args);
                proof {
                    assert(strings_view(args@) =~= strings_view(old(args)@) + spec_parse_args(
                        toks,
                        pos0,
                    ).0);
                }
            },
        }
    }
}

/// Parses a placeholder construct, the cursor standing right after
/// `[[:`. It cannot fail: the label is whatever stands before the next
/// `]]`.
pub fn parse_placeholder(p: &mut Parser) -> (r: Result<Token, ParseError>)
    ensures
        final(p).toks() == old(p).toks(),
        r matches Ok(t) && token_view(t) == TokenV::Placeholder(
            spec_scan(old(p).toks(), old(p).pos as int, LexToken::End).0,
        ),
        final(p).pos == old(p).pos + spec_scan(old(p).toks(), old(p).pos as int, LexToken::End).1,
{
    let mut label: Vec<char> = Vec::new();
    scan_until(p, LexToken::End, &mut label);
    Ok(Token::Placeholder(chars_to_string(&label)))
}

/// Parses a generator construct, the cursor standing right after `[[+`.
/// It cannot fail: label and arguments are whatever stands before the
/// closing `]]` or the end of input.
pub fn parse_generator(p: &mut Parser) -> (r: Result<Token, ParseError>)
    ensures
        final(p).toks() == old(p).toks(),
        r matches Ok(t) && token_view(t) == spec_parse_generator(
            old(p).toks(),
            old(p).pos as int,
        ).0,
        final(p).pos == old(p).pos + spec_parse_generator(old(p).toks(), old(p).pos as int).1,
{
    let ghost toks = p.toks();
    let ghost pos0 = p.pos as int;
    let mut label: Vec<char> = Vec::new();
    let mut args: Vec<String> = Vec::new();
    if p.eat(LexToken::Quote) {
        scan_until(p, LexToken::Quote, &mut label);
        let ghost n = spec_scan(toks, pos0 + 1, LexToken::Quote).1;
        parse_args(p, &mut args);
        proof {
            assert(label@ =~= spec_scan(toks, pos0 + 1, LexToken::Quote).0);
            assert(strings_view(args@) =~= spec_parse_args(toks, pos0 + 1 + n).0);
        }
        Ok(Token::Generated(chars_to_string(&label), args))
    } else {
        if scan_bare_label(p, &mut label) {
            proof {
                assert(strings_view(Seq::<String>::empty()) =~= Seq::<Seq<char>>::empty());
            }
            Ok(Token::Generated(chars_to_string(&label), Vec::new()))
        } else {
            let ghost n = spec_scan_bare_label(toks, pos0, Seq::empty()).1;
            parse_args(p, &mut args);
            proof {
                assert(label@ =~= spec_scan_bare_label(toks, pos0, Seq::empty()).0->Open_0);
                assert(strings_view(args@) =~= spec_parse_args(toks, pos0 + n).0);
            }
            Ok(Token::Generated(chars_to_string(&label), args))
        }
    }
}

/// Discards everything up to and including the `]]` that closes a
/// `[[/...]]` marker; the text after the slash is commentary.
pub fn parse_block_end(p: &mut Parser)
    ensures
        final(p).toks() == old(p).toks(),
        final(p).pos == old(p).pos + spec_skip_past_end(old(p).toks(), old(p).pos as int),
    decreases seq_rem(p.toks(), p.pos as int),
{
    match p.next() {
        None => (),
        Some(t) => {
            if t != LexToken::End {
                parse_block_end(p);
            }
        },
    }
}

/// Pending literal text put before a token run: nothing when it is empty,
/// else it melts into the run's leading literal.
pub open spec fn lit_merge(buf: Seq<char>, rest: Seq<TokenV>) -> Seq<TokenV> {
    if buf.len() == 0 {
        rest
    } else {
        lit_cons(buf, rest)
    }
}

/// Growing the pending literal text is the same as consing it in front of
/// the parsed run.
proof fn lemma_merge_lit(buf: Seq<char>, text: Seq<char>, rest: Seq<TokenV>)
    requires
        text.len() > 0,
    ensures
        lit_merge(buf, lit_cons(text, rest)) == lit_merge(buf + text, rest),
{
    if buf.len() == 0 {
        assert(buf + text =~= text);
        assert(lit_merge(buf, lit_cons(text, rest)) =~= lit_merge(buf + text, rest));
    } else {
        let l = lit_cons(text, rest);
        assert(l[0] is Literal);
        if rest.len() > 0 && rest[0] is Literal {
            assert(lit_cons(buf, l)[0] == TokenV::Literal(buf + (text + rest[0]->Literal_0)));
            assert(buf + (text + rest[0]->Literal_0) =~= (buf + text) + rest[0]->Literal_0);
            assert(lit_cons(buf, l).skip(1) =~= l.skip(1));
            assert(l.skip(1) =~= rest.skip(1));
            assert(lit_cons(buf, l) =~= lit_cons(buf + text, rest));
        } else {
            assert(buf + text =~= buf + text);
            assert(lit_cons(buf, l)[0] == TokenV::Literal(buf + text));
            assert(lit_cons(buf, l).skip(1) =~= rest);
            assert(lit_cons(buf, l) =~= lit_cons(buf + text, rest));
        }
    }
}

/// Appending one token to a token list appends its view.
proof fn lemma_tokens_view_push(s: Seq<Token>, x: Token)
    ensures
        tokens_view(s.push(x)) == tokens_view(s) + seq![token_view(x)],
{
    assert(s.push(x).drop_last() =~= s);
    assert(tokens_view(s.push(x)) =~= tokens_view(s) + seq![token_view(x)]);
}

/// Flushes the pending literal text as a literal token, if there is any.
fn flush_literal(result: &mut Vec<Token>, buf: &mut Vec<char>)
    ensures
        tokens_view(final(result)@) == tokens_view(old(result)@) + lit_merge(
            old(buf)@,
            Seq::empty(),
        ),
        final(buf)@ == Seq::<char>::empty(),
{
    if buf.len() > 0 {
        let ghost pre = result@;
        let t = Token::Literal(chars_to_string(buf));
        result.push(t);
        buf.clear();
        proof {
            lemma_tokens_view_push(pre, t);
            assert(tokens_view(result@) =~= tokens_view(pre) + lit_merge(
                old(buf)@,
                Seq::empty(),
            ));
        }
    } else {
        proof {
            assert(tokens_view(result@) =~= tokens_view(result@) + lit_merge(
                old(buf)@,
                Seq::empty(),
            ));
        }
    }
}

/// Parses one block: tokens accumulate until a `[[/...]]` marker or the
/// end of input. The error carries the unknown construct marker that
/// followed a `[[`.
#[verifier::rlimit(60)]
pub fn parse_block(p: &mut Parser) -> (r: Result<Vec<Token>, ParseError>)
    ensures
        final(p).toks() == old(p).toks(),
        match spec_parse_block(old(p).toks(), old(p).pos as int) {
            Ok((ts, n)) => r matches Ok(v) && tokens_view(v@) == ts && final(p).pos == old(p).pos
                + n,
            Err(e) => r matches Err(pe) && pe.marker == e,
        },
    decreases seq_rem(p.toks(), p.pos as int), 0int,
{
    let ghost toks = p.toks();
    let ghost pos0 = p.pos as int;
    let mut result: Vec<Token> = Vec::new();
    let mut buf: Vec<char> = Vec::new();
    loop
        invariant_except_break
            p.toks() == toks,
            toks == old(p).toks(),
            pos0 == old(p).pos,
            pos0 <= p.pos as int,
            match spec_parse_block(toks, p.pos as int) {
                Ok((ts, n)) => spec_parse_block(toks, pos0) matches Ok((full, tot)) && full
                    == tokens_view(result@) + lit_merge(buf@, ts) && tot == (p.pos - pos0) + n,
                Err(e) => spec_parse_block(toks, pos0) == Err::<(Seq<TokenV>, nat), LexToken>(e),
            },
        ensures
            p.toks() == toks,
            toks == old(p).toks(),
            pos0 == old(p).pos,
            spec_parse_block(toks, pos0) matches Ok((full, tot)) && full == tokens_view(result@)
                + lit_merge(buf@, Seq::empty()) && tot == p.pos - pos0,
        decreases seq_rem(p.toks(), p.pos as int),
    {
        let ghost posb = p.pos as int;
        match p.next() {
            None => {
                break ;
            },
            Some(t) => {
                if t == LexToken::Begin {
                    let ghost pos1 = p.pos as int;
                    match p.next() {
                        None => {
                            let ghost bufpre = buf@;
                            t.push_to_buf(&mut buf);
                            proof {
                                assert(spec_parse_block(toks, posb) matches Ok((ts, n)) && ts
                                    == seq![TokenV::Literal(seq!['[', '['])] && n == 1);
                                lemma_merge_lit(bufpre, seq!['[', '['], Seq::<TokenV>::empty());
                                assert(lit_cons(seq!['[', '['], Seq::<TokenV>::empty())
                                    =~= seq![TokenV::Literal(seq!['[', '['])]);
                            }
                        },
                        Some(t2) => {
                            if t2 == LexToken::Colon {
                                flush_literal(&mut result, &mut buf);
                                let ghost pre = result@;
                                match parse_placeholder(p) {
                                    Ok(tok) => {
                                        result.push(tok);
                                        proof {
                                            lemma_tokens_view_push(pre, tok);
                                        }
                                    },
                                    Err(e) => {
                                        return Err(e);
                                    },
                                }
                            } else if t2 == LexToken::Questionmark {
                                flush_literal(&mut result, &mut buf);
                                let ghost pre = result@;
                                match parse_conditional(p) {
                                    Ok(tok) => {
                                        result.push(tok);
                                        proof {
                                            lemma_tokens_view_push(pre, tok);
                                        }
                                    },
                                    Err(e) => {
                                        return Err(e);
                                    },
                                }
                            } else if t2 == LexToken::Plus {
                                flush_literal(&mut result, &mut buf);
                                let ghost pre = result@;
                                match parse_generator(p) {
                                    Ok(tok) => {
                                        result.push(tok);
                                        proof {
                                            lemma_tokens_view_push(pre, tok);
                                        }
                                    },
                                    Err(e) => {
                                        return Err(e);
                                    },
                                }
                            } else if t2 == LexToken::Slash {
                                parse_block_end(p);
                                break ;
                            } else {
                                return Err(ParseError { marker: t2 });
                            }
                        },
                    }
                } else {
                    let ghost bufpre = buf@;
                    t.push_to_buf(&mut buf);
                    proof {
                        match spec_parse_block(toks, posb + 1) {
                            Ok((rest, _m)) => lemma_merge_lit(bufpre, t.spec_text(), rest),
                            Err(_) => (),
                        }
                    }
                }
            },
        }
    }
    flush_literal(&mut result, &mut buf);
    Ok(result)
}

/// Parses a conditional construct, the cursor standing right after `[[?`:
/// optional `!`, optional `:`, the label up to `]]`, then a nested block
/// as the body. The only failure is a parse error inside the body.
pub fn parse_conditional(p: &mut Parser) -> (r: Result<Token, ParseError>)
    ensures
        final(p).toks() == old(p).toks(),
        match spec_parse_conditional(old(p).toks(), old(p).pos as int) {
            Ok((tv, n)) => r matches Ok(t) && token_view(t) == tv && final(p).pos == old(p).pos
                + n,
            Err(e) => r matches Err(pe) && pe.marker == e,
        },
    decreases seq_rem(p.toks(), p.pos as int), 1int,
{
    let negative = p.eat(LexToken::Exclamation);
    let content_cond = p.eat(LexToken::Colon);
    let mut label: Vec<char> = Vec::new();
    scan_until(p, LexToken::End, &mut label);
    match parse_block(p) {
        Ok(content) => {
            let t = if content_cond {
                Token::ContentConditional(chars_to_string(&label), !negative, content)
            } else {
                Token::Conditional(chars_to_string(&label), !negative, content)
            };
            Ok(t)
        },
        Err(e) => Err(e),
    }
}

/// Parses a whole character stream into a token tree. The result is the
/// top-level block of the stream's lexical tokens; the error carries the
/// unknown construct marker that made the parse fail.
pub fn parse(chars: &Vec<char>) -> (r: Result<Vec<Token>, ParseError>)
    ensures
        match spec_parse(chars@) {
            Ok(ts) => r matches Ok(v) && tokens_view(v@) == ts,
            Err(e) => r matches Err(pe) && pe.marker == e,
        },
{
    let toks = lex(chars);
    let mut p = Parser::new(toks);
    parse_block(&mut p)
}

} // verus!

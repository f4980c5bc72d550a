//! The lexer: character stream to lexical tokens, escapes resolved.

use vstd::prelude::*;

use crate::text::{chars_to_string, spec_char_text};

verus! {

/// One lexical token: a structural marker or a plain character. Escapes
/// are resolved during lexing, so an escaped character always arrives here
/// as `Character`.
#[derive(Debug, PartialEq, Eq, Clone, Copy, Structural)]
pub enum LexToken {
    /// `[[`
    Begin,
    /// `]]`
    End,
    Colon,
    Questionmark,
    Exclamation,
    Plus,
    Slash,
    Quote,
    Character(char),
}

impl LexToken {
    /// The text this token stands for when it is taken literally.
    pub open spec fn spec_text(self) -> Seq<char> {
        match self {
            LexToken::Begin => seq!['[', '['],
            LexToken::End => seq![']', ']'],
            LexToken::Colon => seq![':'],
            LexToken::Questionmark => seq!['?'],
            LexToken::Exclamation => seq!['!'],
            LexToken::Plus => seq!['+'],
            LexToken::Slash => seq!['/'],
            LexToken::Quote => seq!['"'],
            LexToken::Character(c) => spec_char_text(c),
        }
    }

    /// Appends the token's literal text to the buffer.
    pub fn push_to_buf(&self, buf: &mut Vec<char>)
        ensures
            final(buf)@ == old(buf)@ + self.spec_text(),
    {
        match self {
            LexToken::Begin => {
                buf.push('[');
                buf.push('[');
            },
            LexToken::End => {
                buf.push(']');
                buf.push(']');
            },
            LexToken::Colon => buf.push(':'),
            LexToken::Questionmark => buf.push('?'),
            LexToken::Exclamation => buf.push('!'),
            LexToken::Plus => buf.push('+'),
            LexToken::Slash => buf.push('/'),
            LexToken::Quote => buf.push('"'),
            LexToken::Character(c) => buf.push(*c),
        }
        proof {
            assert(buf@ =~= old(buf)@ + self.spec_text());
        }
    }

    /// The token's literal text as a string, for messages and output.
    pub fn text(&self) -> (r: String)
        ensures
            r@ == self.spec_text(),
    {
        let mut buf: Vec<char> = Vec::new();
        self.push_to_buf(&mut buf);
        chars_to_string(&buf)
    }
}

/// The set of whitespace characters (the Unicode `White_Space` property),
/// as `char::is_whitespace` recognizes them.
pub open spec fn spec_is_whitespace(c: char) -> bool {
    let u = c as u32;
    ||| (0x9 <= u && u <= 0xD)
    ||| u == 0x20
    ||| u == 0x85
    ||| u == 0xA0
    ||| u == 0x1680
    ||| (0x2000 <= u && u <= 0x200A)
    ||| u == 0x2028
    ||| u == 0x2029
    ||| u == 0x202F
    ||| u == 0x205F
    ||| u == 0x3000
}

/// Whether `c` has the Unicode `White_Space` property.
pub fn is_whitespace_char(c: char) -> (r: bool)
    ensures
        r == spec_is_whitespace(c),
{
    let u = c as u32;
    (0x9 <= u && u <= 0xD) || u == 0x20 || u == 0x85 || u == 0xA0 || u == 0x1680 || (0x2000 <= u
        && u <= 0x200A) || u == 0x2028 || u == 0x2029 || u == 0x202F || u == 0x205F || u == 0x3000
}

/// The lexical class of a single character outside any two-character
/// marker or escape.
pub open spec fn lex_class(c: char) -> LexToken {
    if c == ':' {
        LexToken::Colon
    } else if c == '?' {
        LexToken::Questionmark
    } else if c == '!' {
        LexToken::Exclamation
    } else if c == '+' {
        LexToken::Plus
    } else if c == '/' {
        LexToken::Slash
    } else if c == '"' {
        LexToken::Quote
    } else {
        LexToken::Character(c)
    }
}

/// The lexical tokens of a character sequence: `[[` and `]]` become
/// markers, a backslash takes the next character verbatim (a trailing
/// backslash ends lexing silently), and every other character is its own
/// class.
pub open spec fn spec_lex(s: Seq<char>) -> Seq<LexToken>
    decreases s.len(),
{
    if s.len() == 0 {
        Seq::empty()
    } else if s[0] == '[' && s.len() >= 2 && s[1] == '[' {
        seq![LexToken::Begin] + spec_lex(s.skip(2))
    } else if s[0] == ']' && s.len() >= 2 && s[1] == ']' {
        seq![LexToken::End] + spec_lex(s.skip(2))
    } else if s[0] == '\\' {
        if s.len() == 1 {
            Seq::empty()
        } else {
            seq![LexToken::Character(s[1])] + spec_lex(s.skip(2))
        }
    } else {
        seq![lex_class(s[0])] + spec_lex(s.skip(1))
    }
}

/// Turns a character sequence into its lexical tokens.
#[verifier::rlimit(30)]
pub fn lex(chars: &Vec<char>) -> (r: Vec<LexToken>)
    ensures
        r@ == spec_lex(chars@),
{
    let ghost s = chars@;
    let n = chars.len();
    let mut r: Vec<LexToken> = Vec::new();
    let mut i: usize = 0;
    proof {
        assert(s.skip(0) =~= s);
    }
    while i < n
        invariant
            n == chars.len(),
            s == chars@,
            i <= n,
            spec_lex(s) == r@ + spec_lex(s.skip(i as int)),
        decreases n - i,
    {
        let ghost rem = s.skip(i as int);
        proof {
            assert(rem.len() == n - i);
            assert(rem[0] == s[i as int]);
            if i + 1 < n {
                assert(rem[1] == s[i as int + 1]);
                assert(rem.skip(2) =~= s.skip(i as int + 2));
            }
            assert(rem.skip(1) =~= s.skip(i as int + 1));
        }
        let c = chars[i];
        if c == '[' && i + 1 < n && chars[i + 1] == '[' {
            proof {
                assert(spec_lex(rem) == seq![LexToken::Begin] + spec_lex(s.skip(i as int + 2)));
            }
            r.push(LexToken::Begin);
            i = i + 2;
        } else if c == ']' && i + 1 < n && chars[i + 1] == ']' {
            proof {
                assert(spec_lex(rem) == seq![LexToken::End] + spec_lex(s.skip(i as int + 2)));
            }
            r.push(LexToken::End);
            i = i + 2;
        } else if c == '\\' {
            if i + 1 < n {
                proof {
                    assert(spec_lex(rem) == seq![LexToken::Character(s[i as int + 1])] + spec_lex(
                        s.skip(i as int + 2),
                    ));
                }
                r.push(LexToken::Character(chars[i + 1]));
                i = i + 2;
            } else {
                proof {
                    assert(spec_lex(rem) == Seq::<LexToken>::empty());
                }
                i = n;
            }
        } else {
            proof {
                assert(spec_lex(rem) == seq![lex_class(s[i as int])] + spec_lex(
                    s.skip(i as int + 1),
                ));
            }
            if c == ':' {
                r.push(LexToken::Colon);
            } else if c == '?' {
                r.push(LexToken::Questionmark);
            } else if c == '!' {
                r.push(LexToken::Exclamation);
            } else if c == '+' {
                r.push(LexToken::Plus);
            } else if c == '/' {
                r.push(LexToken::Slash);
            } else if c == '"' {
                r.push(LexToken::Quote);
            } else {
                r.push(LexToken::Character(c));
            }
            i = i + 1;
        }
    }
    proof {
        assert(s.skip(n as int) =~= Seq::empty());
    }
    r
}

} // verus!

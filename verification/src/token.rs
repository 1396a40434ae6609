//! Token model and lexer: classifies characters of the source text into a
//! flat sequence of operator and single-digit literal tokens.

use vstd::prelude::*;
use vstd::string::StrSliceExecFns;

verus! {

/// The classification of a token, used as the key for rule lookup.
#[derive(Eq, Copy, Clone, Debug, PartialEq, Hash, Structural)]
pub enum TokenKind {
    Value,
    Plus,
    Times,
    Hyphen,
    Bang,
}

/// A token: either an operator of some kind, or a single-digit literal.
#[derive(Eq, Copy, Clone, Debug, PartialEq, Hash, Structural)]
pub enum Token {
    Op(TokenKind),
    Digit(i16),
}

impl Token {
    /// The kind of a token: literal tokens are always `Value`; operator
    /// tokens carry their own kind.
    pub open spec fn spec_kind(&self) -> TokenKind {
        match self {
            Token::Op(k) => *k,
            Token::Digit(_) => TokenKind::Value,
        }
    }

    #[verifier::when_used_as_spec(spec_kind)]
    pub fn kind(&self) -> (k: TokenKind)
        ensures
            k == self.spec_kind(),
    {
        match self {
            Token::Op(k) => *k,
            Token::Digit(_) => TokenKind::Value,
        }
    }
}

/// The numeric value of an ASCII digit character, and `None` for any other
/// character.
pub open spec fn spec_digit_value(c: char) -> Option<i16> {
    if '0' <= c && c <= '9' {
        Some((c as int - '0' as int) as i16)
    } else {
        None
    }
}

fn char_to_i16(c: char) -> (r: Option<i16>)
    ensures
        r == spec_digit_value(c),
{
    match c {
        '0' => Some(0),
        '1' => Some(1),
        '2' => Some(2),
        '3' => Some(3),
        '4' => Some(4),
        '5' => Some(5),
        '6' => Some(6),
        '7' => Some(7),
        '8' => Some(8),
        '9' => Some(9),
        _ => None,
    }
}

/// Whether a character has the Unicode `White_Space` property; a function of
/// the character alone.
pub uninterp spec fn is_whitespace_char(c: char) -> bool;

/// Relies on `char::is_whitespace` from std: returns whether `c` has the
/// Unicode `White_Space` property, which depends on the character alone.
#[verifier::external_body]
fn char_is_whitespace(c: char) -> (r: bool)
    ensures
        r == is_whitespace_char(c),
{
    c.is_whitespace()
}

/// The single token a non-whitespace character scans to, and `None` for a
/// character the lexer rejects.
pub open spec fn spec_token_of(c: char) -> Option<Token> {
    if c == '+' {
        Some(Token::Op(TokenKind::Plus))
    } else if c == '*' {
        Some(Token::Op(TokenKind::Times))
    } else if c == '-' {
        Some(Token::Op(TokenKind::Hyphen))
    } else if c == '!' {
        Some(Token::Op(TokenKind::Bang))
    } else {
        match spec_digit_value(c) {
            Some(v) => Some(Token::Digit(v)),
            None => None,
        }
    }
}

/// The token sequence a text scans to: whitespace is skipped, every other
/// character must scan to one token, and a rejected character fails the
/// whole scan with no partial result.
pub open spec fn spec_lex(s: Seq<char>) -> Option<Seq<Token>>
    decreases s.len(),
{
    if s.len() == 0 {
        Some(Seq::empty())
    } else if is_whitespace_char(s[0]) {
        spec_lex(s.drop_first())
    } else {
        match spec_token_of(s[0]) {
            None => None,
            Some(t) => match spec_lex(s.drop_first()) {
                None => None,
                Some(rest) => Some(seq![t] + rest),
            },
        }
    }
}

/// Scans `input` left to right into tokens, skipping whitespace; any
/// character that is neither whitespace, an operator, nor an ASCII digit
/// makes the whole scan fail.
pub fn lex(input: &str) -> (r: Option<Vec<Token>>)
    ensures
        match r {
            Some(tokens) => spec_lex(input@) == Some(tokens@),
            None => spec_lex(input@) is None,
        },
{
    let n: usize = input.unicode_len();
    let mut result: Vec<Token> = Vec::new();
    let mut i: usize = 0;
    proof {
        assert(input@.skip(0) =~= input@);
    }
    while i < n
        invariant
            n == input@.len(),
            i <= n,
            match spec_lex(input@.skip(i as int)) {
                Some(rest) => spec_lex(input@) == Some(result@ + rest),
                None => spec_lex(input@) is None,
            },
        decreases n - i,
    {
        let c = input.get_char(i);
        proof {
            assert(input@.skip(i as int).len() > 0);
            assert(input@.skip(i as int)[0] == c);
            assert(input@.skip(i as int).drop_first() =~= input@.skip(i + 1));
        }
        if char_is_whitespace(c) {
            i += 1;
            continue;
        }
        let token = match c {
            '+' => Token::Op(TokenKind::Plus),
            '*' => Token::Op(TokenKind::Times),
            '-' => Token::Op(TokenKind::Hyphen),
            '!' => Token::Op(TokenKind::Bang),
            _ => match char_to_i16(c) {
                Some(v) => Token::Digit(v),
                None => {
                    return None;
                },
            },
        };
        proof {
            assert(spec_token_of(c) == Some(token));
        }
        let ghost prev = result@;
        result.push(token);
        proof {
            assert forall|rest: Seq<Token>| prev + (seq![token] + rest) =~= result@ + rest by {}
        }
        i += 1;
    }
    proof {
        assert(input@.skip(n as int) =~= Seq::<char>::empty());
        assert(result@ + Seq::<Token>::empty() =~= result@);
    }
    Some(result)
}

} // verus!

//! The tokens of integer arithmetic.

use vstd::prelude::*;
use crate::decimal::{decimal_string, decimal_text, digits_value, is_digit};
use crate::token::{CharCursor, Token, TokenError, TokenParser, TokenReading, TokenResult};

verus! {

/// A token of integer arithmetic.
#[derive(Debug, PartialEq, Eq, Clone, Hash)]
pub enum IntRingToken {
    LeftParenthesis,
    RightParenthesis,
    PlusSign,
    MinusSign,
    MultiplicationSign,
    DivisionSign,
    DecimalInteger(i64),
    Modulo,
}

impl Token for IntRingToken {
    open spec fn text(&self) -> Seq<char> {
        match self {
            IntRingToken::LeftParenthesis => seq!['('],
            IntRingToken::RightParenthesis => seq![')'],
            IntRingToken::PlusSign => seq!['+'],
            IntRingToken::MinusSign => seq!['-'],
            IntRingToken::MultiplicationSign => seq!['*'],
            IntRingToken::DivisionSign => seq!['/'],
            IntRingToken::DecimalInteger(d) => decimal_text(*d as int),
            IntRingToken::Modulo => seq!['m', 'o', 'd'],
        }
    }

    fn to_string(&self) -> (s: String) {
        proof {
            reveal_strlit("(");
            reveal_strlit(")");
            reveal_strlit("+");
            reveal_strlit("-");
            reveal_strlit("*");
            reveal_strlit("/");
            reveal_strlit("mod");
        }
        let s = match self {
            IntRingToken::LeftParenthesis => "(".to_owned(),
            IntRingToken::RightParenthesis => ")".to_owned(),
            IntRingToken::PlusSign => "+".to_owned(),
            IntRingToken::MinusSign => "-".to_owned(),
            IntRingToken::MultiplicationSign => "*".to_owned(),
            IntRingToken::DivisionSign => "/".to_owned(),
            IntRingToken::DecimalInteger(d) => decimal_string(*d),
            IntRingToken::Modulo => "mod".to_owned(),
        };
        assert(s@ =~= self.text());
        s
    }
}

/// The end of the run of digits that starts at `position`.
pub open spec fn digits_end(chars: Seq<char>, position: int) -> int
    decreases chars.len() - position,
{
    if 0 <= position < chars.len() && is_digit(chars[position]) {
        digits_end(chars, position + 1)
    } else {
        position
    }
}

/// The failure for a text that is no token.
pub open spec fn invalid_token<T>(position: int) -> TokenReading<T> {
    Err(("Invalid token"@, position))
}

/// The token of integer arithmetic that starts at `position` of `chars`:
/// one of `( ) + - * /`; the word `mod`; or the longest run of digits, read
/// as a decimal number, which must be representable in 64 bits.
pub open spec fn int_ring_token_at(chars: Seq<char>, position: int) -> TokenReading<IntRingToken> {
    let c = chars[position];
    if c == '(' {
        Ok((IntRingToken::LeftParenthesis, position + 1))
    } else if c == ')' {
        Ok((IntRingToken::RightParenthesis, position + 1))
    } else if c == '+' {
        Ok((IntRingToken::PlusSign, position + 1))
    } else if c == '-' {
        Ok((IntRingToken::MinusSign, position + 1))
    } else if c == '*' {
        Ok((IntRingToken::MultiplicationSign, position + 1))
    } else if c == '/' {
        Ok((IntRingToken::DivisionSign, position + 1))
    } else if c == 'm' {
        if position + 3 <= chars.len() && chars[position + 1] == 'o' && chars[position + 2] == 'd' {
            Ok((IntRingToken::Modulo, position + 3))
        } else {
            invalid_token(position)
        }
    } else if is_digit(c) {
        let end = digits_end(chars, position);
        let value = digits_value(chars.subrange(position, end));
        if value <= i64::MAX {
            Ok((IntRingToken::DecimalInteger(value as i64), end))
        } else {
            Err(("Decimal number too big"@, position))
        }
    } else {
        invalid_token(position)
    }
}

/// A run of digits ends behind its first digit at the earliest, within the
/// text, and holds digits only.
pub proof fn lemma_digits_end(chars: Seq<char>, position: int)
    requires
        0 <= position <= chars.len(),
    ensures
        position <= digits_end(chars, position) <= chars.len(),
        position < chars.len() && is_digit(chars[position]) ==> position < digits_end(chars, position),
        forall|i: int| position <= i < digits_end(chars, position) ==> is_digit(chars[i]),
        digits_end(chars, position) < chars.len() ==> !is_digit(chars[digits_end(chars, position)]),
    decreases chars.len() - position,
{
    if position < chars.len() && is_digit(chars[position]) {
        lemma_digits_end(chars, position + 1);
    }
}

/// A run of digits denotes no less than any of its beginnings.
pub proof fn lemma_digits_value_grows(digits: Seq<char>, n: int)
    requires
        0 <= n <= digits.len(),
        forall|i: int| 0 <= i < digits.len() ==> is_digit(digits[i]),
    ensures
        0 <= digits_value(digits.take(n)) <= digits_value(digits),
    decreases digits.len(),
{
    if digits.len() == 0 {
        assert(digits.take(n) =~= digits);
    } else if n == digits.len() {
        assert(digits.take(n) =~= digits);
        lemma_digits_value_grows(digits.drop_last(), n - 1);
    } else {
        lemma_digits_value_grows(digits.drop_last(), n);
        assert(digits.drop_last().take(n) =~= digits.take(n));
    }
}

/// Reads the tokens of integer arithmetic.
pub struct IntRingTokenParser {
}

impl IntRingTokenParser {
    /// A parser for the tokens of integer arithmetic.
    pub fn new() -> (parser: IntRingTokenParser)
        ensures
            parser == (IntRingTokenParser {  }),
    {
        IntRingTokenParser {  }
    }

    /// The failure for a text that is no token.
    fn invalid_token_result(pos: usize) -> (res: TokenResult<IntRingToken>)
        ensures
            res matches Err(err) && err.message@ == "Invalid token"@ && err.position == pos,
    {
        Err(TokenError { message: "Invalid token".to_owned(), position: pos })
    }
}

impl TokenParser for IntRingTokenParser {
    type TokenType = IntRingToken;

    open spec fn token_at(&self, chars: Seq<char>, position: int) -> TokenReading<IntRingToken> {
        int_ring_token_at(chars, position)
    }

    fn read_next_token(&self, char_iterator: &mut CharCursor) -> (res: TokenResult<IntRingToken>) {
        let ghost chars = char_iterator.chars();
        let (pos, c) = match char_iterator.peek() {
            Some(item) => item,
            None => vstd::pervasive::unreached(),
        };
        if c == '(' {
            char_iterator.next();
            Ok(IntRingToken::LeftParenthesis)
        } else if c == ')' {
            char_iterator.next();
            Ok(IntRingToken::RightParenthesis)
        } else if c == '+' {
            char_iterator.next();
            Ok(IntRingToken::PlusSign)
        } else if c == '-' {
            char_iterator.next();
            Ok(IntRingToken::MinusSign)
        } else if c == '*' {
            char_iterator.next();
            Ok(IntRingToken::MultiplicationSign)
        } else if c == '/' {
            char_iterator.next();
            Ok(IntRingToken::DivisionSign)
        } else if c == 'm' {
            char_iterator.next();
            let second = char_iterator.next();
            let third = char_iterator.next();
            match (second, third) {
                (Some((_, 'o')), Some((_, 'd'))) => Ok(IntRingToken::Modulo),
                _ => Self::invalid_token_result(pos),
            }
        } else if c >= '0' && c <= '9' {
            let mut value: i64 = 0;
            let ghost end = digits_end(chars, pos as int);
            proof {
                lemma_digits_end(chars, pos as int);
                assert(chars.subrange(pos as int, pos as int) =~= Seq::<char>::empty());
            }
            loop
                invariant
                    char_iterator.chars() == chars,
                    chars == old(char_iterator).chars(),
                    pos == old(char_iterator).position(),
                    pos < chars.len(),
                    is_digit(chars[pos as int]),
                    pos <= char_iterator.position() <= end <= chars.len(),
                    end == digits_end(chars, pos as int),
                    end == digits_end(chars, char_iterator.position()),
                    forall|i: int| pos <= i < end ==> is_digit(chars[i]),
                    end < chars.len() ==> !is_digit(chars[end]),
                    value == digits_value(chars.subrange(pos as int, char_iterator.position())),
                ensures
                    char_iterator.position() == end,
                decreases chars.len() - char_iterator.position(),
            {
                let digit = match char_iterator.peek() {
                    Some((_, c)) => {
                        if c >= '0' && c <= '9' {
                            c
                        } else {
                            break;
                        }
                    },
                    None => {
                        break;
                    },
                };
                char_iterator.next();
                let ghost run = chars.subrange(pos as int, char_iterator.position());
                proof {
                    lemma_digits_end(chars, char_iterator.position());
                    assert(run.drop_last() =~= chars.subrange(pos as int, char_iterator.position() - 1));
                    assert(run.last() == digit);
                    let whole = chars.subrange(pos as int, end);
                    lemma_digits_value_grows(whole, run.len() as int);
                    assert(whole.take(run.len() as int) =~= run);
                }
                let d: i64 = (digit as u8 - 48) as i64;
                let next = match value.checked_mul(10) {
                    Some(tens) => tens.checked_add(d),
                    None => None,
                };
                match next {
                    Some(v) => {
                        value = v;
                    },
                    None => {
                        return Err(
                            TokenError { message: "Decimal number too big".to_owned(), position: pos },
                        );
                    },
                }
            }
            Ok(IntRingToken::DecimalInteger(value))
        } else {
            Self::invalid_token_result(pos)
        }
    }
}

} // verus!

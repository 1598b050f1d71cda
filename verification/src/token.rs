//! Positioned tokens and the iterator that cuts a source text into them.

use vstd::prelude::*;
use crate::decimal::{decimal_digits, natural_string};

pub mod intring;

verus! {

/// A place in the source text where no token could be read, and why.
#[derive(Debug, PartialEq, Eq, Clone, Hash)]
pub struct TokenError {
    pub message: String,
    pub position: usize,
}

impl TokenError {
    /// The failure in words: the position, then the message.
    pub open spec fn text(&self) -> Seq<char> {
        "Unparseable input at position "@ + decimal_digits(self.position as nat) + ": "@ + self.message@
    }

    /// Renders the failure as text.
    pub fn to_string(&self) -> (s: String)
        ensures
            s@ == self.text(),
    {
        let mut s = "Unparseable input at position ".to_owned();
        s.append(natural_string(self.position as u64).as_str());
        s.append(": ");
        s.append(self.message.as_str());
        s
    }
}

/// The result of reading tokens.
pub type TokenResult<T> = Result<T, TokenError>;

/// A lexical failure as a mathematical value: the message and the position.
pub type TokenFailure = (Seq<char>, int);

/// A minimal lexical unit.
pub trait Token: PartialEq + Eq + std::hash::Hash + Clone {
    /// The text that stands for this token.
    spec fn text(&self) -> Seq<char>;

    /// Renders the token as text.
    fn to_string(&self) -> (s: String)
        ensures
            s@ == self.text(),
    ;
}

/// Whether `c` is white space between tokens: a character with the Unicode
/// property `White_Space`.
pub open spec fn is_whitespace(c: char) -> bool {
    ||| '\u{9}' <= c <= '\u{D}'
    ||| c == ' '
    ||| c == '\u{85}'
    ||| c == '\u{A0}'
    ||| c == '\u{1680}'
    ||| '\u{2000}' <= c <= '\u{200A}'
    ||| c == '\u{2028}'
    ||| c == '\u{2029}'
    ||| c == '\u{202F}'
    ||| c == '\u{205F}'
    ||| c == '\u{3000}'
}

/// The first position at or after `position` that holds no white space.
pub open spec fn skip_whitespace(chars: Seq<char>, position: int) -> int
    decreases chars.len() - position,
{
    if 0 <= position < chars.len() && is_whitespace(chars[position]) {
        skip_whitespace(chars, position + 1)
    } else {
        position
    }
}

/// The characters of a source text with a cursor: what is left to read
/// starts at the cursor.
pub struct CharCursor {
    chars: Vec<char>,
    position: usize,
}

impl CharCursor {
    /// All characters of the source text.
    pub closed spec fn chars(&self) -> Seq<char> {
        self.chars@
    }

    /// The number of characters already read.
    pub closed spec fn position(&self) -> int {
        self.position as int
    }

    /// The cursor does not lie beyond the end of the text.
    #[verifier::type_invariant]
    spec fn within_text(&self) -> bool {
        self.position <= self.chars.len()
    }

    /// A cursor at the start of `source`.
    pub fn new(source: &str) -> (cursor: CharCursor)
        ensures
            cursor.chars() == source@,
            cursor.position() == 0,
    {
        let mut chars: Vec<char> = Vec::new();
        let mut rest = source.chars();
        for c in it: rest
            invariant
                chars@ == it.seq().take(it.index() as int),
        {
            chars.push(c);
        }
        CharCursor { chars, position: 0 }
    }

    /// The next character with its position, which stays unread; `None` at
    /// the end of the text.
    pub fn peek(&self) -> (next: Option<(usize, char)>)
        ensures
            self.position() <= self.chars().len(),
            next == if self.position() < self.chars().len() {
                Some((self.position() as usize, self.chars()[self.position()]))
            } else {
                None
            },
    {
        proof {
            use_type_invariant(self);
        }
        if self.position < self.chars.len() {
            Some((self.position, self.chars[self.position]))
        } else {
            None
        }
    }

    /// Reads the next character with its position; `None` at the end of the
    /// text.
    pub fn next(&mut self) -> (next: Option<(usize, char)>)
        ensures
            final(self).chars() == old(self).chars(),
            final(self).position() <= final(self).chars().len(),
            next == if old(self).position() < old(self).chars().len() {
                Some((old(self).position() as usize, old(self).chars()[old(self).position()]))
            } else {
                None
            },
            final(self).position() == if old(self).position() < old(self).chars().len() {
                old(self).position() + 1
            } else {
                old(self).position()
            },
    {
        proof {
            use_type_invariant(&*self);
        }
        if self.position < self.chars.len() {
            let item = (self.position, self.chars[self.position]);
            self.position = self.position + 1;
            Some(item)
        } else {
            None
        }
    }
}

/// What reading one token yields as a mathematical value: the token and the
/// position behind it, or the failure.
pub type TokenReading<T> = Result<(T, int), TokenFailure>;

/// Reads tokens out of a text.
pub trait TokenParser {
    type TokenType: Token;

    /// The token that starts at `position` of `chars`, which holds a
    /// character there, with the position behind the token; or the failure.
    spec fn token_at(&self, chars: Seq<char>, position: int) -> TokenReading<Self::TokenType>;

    /// Tries to read the token that starts at the cursor, where a character
    /// must be left to read. On success the cursor stands behind the token,
    /// which is not empty.
    fn read_next_token(&self, char_iterator: &mut CharCursor) -> (res: TokenResult<Self::TokenType>)
        requires
            old(char_iterator).position() < old(char_iterator).chars().len(),
        ensures
            final(char_iterator).chars() == old(char_iterator).chars(),
            final(char_iterator).position() <= final(char_iterator).chars().len(),
            match res {
                Ok(token) => {
                    &&& self.token_at(old(char_iterator).chars(), old(char_iterator).position()) == Ok::<
                        (Self::TokenType, int),
                        TokenFailure,
                    >((token, final(char_iterator).position()))
                    &&& final(char_iterator).position() > old(char_iterator).position()
                },
                Err(err) => self.token_at(old(char_iterator).chars(), old(char_iterator).position())
                    == Err::<(Self::TokenType, int), TokenFailure>((err.message@, err.position as int)),
            },
    ;
}

/// A token with the position of its first character in the source text,
/// counted in characters from zero.
#[derive(Debug, PartialEq, Eq, Clone, Hash)]
pub struct TokenWithPos<T: Token> {
    pub token: T,
    pub position: usize,
}

/// The outcome of cutting a text into tokens: the tokens read, in order, and
/// the failure that ended the reading, if one did.
pub struct Tokens<T: Token> {
    pub tokens: Seq<TokenWithPos<T>>,
    pub failure: Option<TokenFailure>,
}

/// The tokens of `chars` from `position` on: white space is skipped, then a
/// token is read with `generator`, until the text ends or no token can be
/// read.
pub open spec fn tokens_from<G: TokenParser>(generator: G, chars: Seq<char>, position: int) -> Tokens<
    G::TokenType,
>
    decreases chars.len() - position,
{
    let start = skip_whitespace(chars, position);
    if !(0 <= position <= start < chars.len()) {
        Tokens { tokens: Seq::empty(), failure: None }
    } else {
        match generator.token_at(chars, start) {
            Err(failure) => Tokens { tokens: Seq::empty(), failure: Some(failure) },
            Ok((token, next)) => {
                let first = TokenWithPos { token, position: start as usize };
                if start < next <= chars.len() {
                    let rest = tokens_from(generator, chars, next);
                    Tokens { tokens: seq![first] + rest.tokens, failure: rest.failure }
                } else {
                    Tokens { tokens: seq![first], failure: None }
                }
            },
        }
    }
}

/// White space is skipped forwards, up to the end of the text at most.
pub proof fn lemma_skip_whitespace(chars: Seq<char>, position: int)
    requires
        0 <= position <= chars.len(),
    ensures
        position <= skip_whitespace(chars, position) <= chars.len(),
        skip_whitespace(chars, position) < chars.len() ==> !is_whitespace(
            chars[skip_whitespace(chars, position)],
        ),
        forall|i: int| position <= i < skip_whitespace(chars, position) ==> is_whitespace(chars[i]),
    decreases chars.len() - position,
{
    if position < chars.len() && is_whitespace(chars[position]) {
        lemma_skip_whitespace(chars, position + 1);
    }
}

/// Yields the tokens of a source text one by one, each with its position.
/// The first failure is yielded once and ends the sequence.
#[verifier::reject_recursive_types(T)]
pub struct TokenIterator<T: Token, G: TokenParser<TokenType = T>> {
    char_iterator: CharCursor,
    token_generator: G,
    failed: bool,
}

impl<T: Token, G: TokenParser<TokenType = T>> TokenIterator<T, G> {
    /// The characters of the source text.
    pub closed spec fn chars(&self) -> Seq<char> {
        self.char_iterator.chars()
    }

    /// The position from which the next token is looked for.
    pub closed spec fn position(&self) -> int {
        self.char_iterator.position()
    }

    /// The parser that reads the tokens.
    pub closed spec fn generator(&self) -> G {
        self.token_generator
    }

    /// Whether a failure has been yielded.
    pub closed spec fn has_failed(&self) -> bool {
        self.failed
    }

    /// What is left to yield: nothing after a failure, else the tokens from
    /// the current position on.
    pub open spec fn remaining(&self) -> Tokens<T> {
        if self.has_failed() {
            Tokens { tokens: Seq::empty(), failure: None }
        } else {
            tokens_from(self.generator(), self.chars(), self.position())
        }
    }

    /// An iterator over the tokens of `str`, read by `token_generator`.
    pub fn new(str: &str, token_generator: G) -> (iter: TokenIterator<T, G>)
        ensures
            iter.chars() == str@,
            iter.position() == 0,
            iter.generator() == token_generator,
            !iter.has_failed(),
    {
        TokenIterator { char_iterator: CharCursor::new(str), token_generator, failed: false }
    }

    /// Skips white space and reads one token. Returns `None` at the end of
    /// the text and after a failure.
    pub fn next(&mut self) -> (item: Option<TokenResult<TokenWithPos<T>>>)
        ensures
            final(self).chars() == old(self).chars(),
            final(self).position() <= final(self).chars().len(),
            final(self).generator() == old(self).generator(),
            match item {
                None => {
                    &&& old(self).remaining().tokens.len() == 0
                    &&& old(self).remaining().failure is None
                    &&& final(self).remaining() == old(self).remaining()
                },
                Some(Ok(token)) => {
                    &&& old(self).remaining().tokens.len() > 0
                    &&& old(self).remaining().tokens[0] == token
                    &&& final(self).remaining().tokens == old(self).remaining().tokens.drop_first()
                    &&& final(self).remaining().failure == old(self).remaining().failure
                    &&& final(self).position() > old(self).position()
                },
                Some(Err(err)) => {
                    &&& old(self).remaining().tokens.len() == 0
                    &&& old(self).remaining().failure == Some((err.message@, err.position as int))
                    &&& final(self).has_failed()
                },
            },
    {
        proof {
            use_type_invariant(&self.char_iterator);
        }
        if self.failed {
            return None;
        }
        proof {
            lemma_skip_whitespace(self.chars(), self.position());
        }
        let ghost start = skip_whitespace(self.chars(), self.position());
        loop
            invariant
                self.position() <= self.chars().len(),
                !self.failed,
                self.chars() == old(self).chars(),
                self.generator() == old(self).generator(),
                old(self).position() <= self.position() <= start,
                start == skip_whitespace(self.chars(), self.position()),
            ensures
                self.position() == start,
            decreases self.chars().len() - self.position(),
        {
            match self.char_iterator.peek() {
                Some((_, c)) => {
                    if whitespace(c) {
                        self.char_iterator.next();
                        proof {
                            lemma_skip_whitespace(self.chars(), self.position());
                        }
                    } else {
                        break;
                    }
                },
                None => {
                    break;
                },
            }
        }
        let position = match self.char_iterator.peek() {
            None => {
                return None;
            },
            Some((position, _)) => position,
        };
        match self.token_generator.read_next_token(&mut self.char_iterator) {
            Ok(token) => {
                let item = TokenWithPos { token, position };
                proof {
                    let rest = tokens_from(self.generator(), self.chars(), self.position());
                    assert((seq![item] + rest.tokens).drop_first() =~= rest.tokens);
                }
                Some(Ok(item))
            },
            Err(err) => {
                self.failed = true;
                Some(Err(err))
            },
        }
    }
}

impl<T: Token, G: TokenParser<TokenType = T>> TokenIterator<T, G> {
    /// Drains the iterator: all tokens that are left, in order, or the
    /// failure that ends them.
    pub fn collect(self) -> (res: TokenResult<Vec<TokenWithPos<T>>>)
        ensures
            match res {
                Ok(tokens) => self.remaining().tokens == tokens@ && self.remaining().failure is None,
                Err(err) => self.remaining().failure == Some((err.message@, err.position as int)),
            },
    {
        let ghost all = self.remaining();
        let mut iter = self;
        proof {
            use_type_invariant(&iter.char_iterator);
        }
        let mut tokens: Vec<TokenWithPos<T>> = Vec::new();
        loop
            invariant
                iter.position() <= iter.chars().len(),
                all == self.remaining(),
                all.tokens == tokens@ + iter.remaining().tokens,
                all.failure == iter.remaining().failure,
            decreases iter.chars().len() - iter.position(),
        {
            match iter.next() {
                None => {
                    assert(all.tokens =~= tokens@);
                    return Ok(tokens);
                },
                Some(Ok(token)) => {
                    let ghost before = tokens@;
                    tokens.push(token);
                    assert(all.tokens =~= tokens@ + iter.remaining().tokens) by {
                        let rest = iter.remaining().tokens;
                        assert(all.tokens == before + (seq![token] + rest));
                        assert(before + (seq![token] + rest) =~= before.push(token) + rest);
                    }
                },
                Some(Err(err)) => {
                    return Err(err);
                },
            }
        }
    }
}

/// Whether `c` is white space.
pub fn whitespace(c: char) -> (res: bool)
    ensures
        res == is_whitespace(c),
{
    ('\u{9}' <= c && c <= '\u{D}') || c == ' ' || c == '\u{85}' || c == '\u{A0}' || c == '\u{1680}'
        || ('\u{2000}' <= c && c <= '\u{200A}') || c == '\u{2028}' || c == '\u{2029}' || c
        == '\u{202F}' || c == '\u{205F}' || c == '\u{3000}'
}

} // verus!

//! Splitting source text into tokens.
//!
//! Text is modelled as a `Seq<char>` and a place in it as an index into that
//! sequence. [`lex_at`] says which token starts at a place and where the next
//! one begins; [`lex_from`] chains it to the end of the text.

use crate::token::{word_token, SpecToken, Token};
use std::collections::VecDeque;
use vstd::prelude::*;
use vstd::string::*;

verus! {

/// Why a text is not a sequence of tokens.
#[derive(Debug, PartialEq, Eq, Clone, Copy, Structural)]
pub enum LexError {
    /// A string literal is opened and the text ends before it is closed.
    UnterminatedString,
    /// A character that begins no token, and its index in the text.
    UnexpectedChar { ch: char, offset: usize },
    /// A number literal that does not fit in 32 signed bits.
    NumberOverflow,
}

/// The kinds of character that a scan runs over.
#[derive(Debug, PartialEq, Eq, Clone, Copy, Structural)]
pub enum CharClass {
    /// A space or a newline.
    Blank,
    /// An ASCII letter.
    Letter,
    /// An ASCII digit.
    Digit,
    /// Anything but a double quote.
    StringBody,
}

impl CharClass {
    pub open spec fn holds(self, c: char) -> bool {
        match self {
            CharClass::Blank => c == ' ' || c == '\n',
            CharClass::Letter => ('a' <= c && c <= 'z') || ('A' <= c && c <= 'Z'),
            CharClass::Digit => '0' <= c && c <= '9',
            CharClass::StringBody => c != '"',
        }
    }

    /// Tells whether `c` belongs to the class.
    pub fn contains(self, c: char) -> (b: bool)
        ensures
            b == self.holds(c),
    {
        match self {
            CharClass::Blank => c == ' ' || c == '\n',
            CharClass::Letter => ('a' <= c && c <= 'z') || ('A' <= c && c <= 'Z'),
            CharClass::Digit => '0' <= c && c <= '9',
            CharClass::StringBody => c != '"',
        }
    }
}

/// The characters that are tokens by themselves.
pub open spec fn is_punctuation(c: char) -> bool {
    c == '(' || c == ')' || c == '.' || c == ';' || c == ',' || c == '{' || c == '}' || c == ':'
}

/// The first place at or after `i` whose character is not in `class`, or the
/// length of the text if there is none.
pub open spec fn run_end(s: Seq<char>, class: CharClass, i: nat) -> nat
    decreases s.len() - i,
{
    if i < s.len() && class.holds(s[i as int]) {
        run_end(s, class, i + 1)
    } else {
        i
    }
}

/// The number that a decimal digit stands for.
pub open spec fn digit_value(c: char) -> nat {
    if '0' <= c && c <= '9' {
        (c as int - '0' as int) as nat
    } else {
        0
    }
}

/// The number that a run of decimal digits stands for.
pub open spec fn decimal_value(digits: Seq<char>) -> nat
    decreases digits.len(),
{
    if digits.len() == 0 {
        0
    } else {
        10 * decimal_value(digits.drop_last()) + digit_value(digits.last())
    }
}

/// What is found when one token is read at a place.
pub ghost enum LexStep {
    /// A token, and the place where the next one is looked for.
    Token { token: SpecToken, next: nat },
    /// Nothing but blanks up to the end of the text.
    End,
    /// No token can be read.
    Error(LexError),
}

/// The token that consists of the single character `c`, which is not a letter,
/// a digit, a double quote or `=`.
pub open spec fn single_char_token(c: char, at: nat) -> LexStep {
    if c == '+' {
        LexStep::Token { token: SpecToken::Add, next: at + 1 }
    } else if c == '-' {
        LexStep::Token { token: SpecToken::Minus, next: at + 1 }
    } else if c == '*' {
        LexStep::Token { token: SpecToken::Mul, next: at + 1 }
    } else if c == '/' {
        LexStep::Token { token: SpecToken::Slash, next: at + 1 }
    } else if is_punctuation(c) {
        LexStep::Token { token: SpecToken::Symbol(c), next: at + 1 }
    } else {
        LexStep::Error(LexError::UnexpectedChar { ch: c, offset: at as usize })
    }
}

/// Reads one token of `s` at `i`.
///
/// Blanks before the token are passed over. A word is the longest run of
/// letters and a number the longest run of digits; a string literal reaches to
/// the next double quote, which must exist; `==` is one token and a single `=`
/// another.
pub open spec fn lex_at(s: Seq<char>, i: nat) -> LexStep {
    let start = run_end(s, CharClass::Blank, i);
    if start >= s.len() {
        LexStep::End
    } else {
        let c = s[start as int];
        if CharClass::Letter.holds(c) {
            let end = run_end(s, CharClass::Letter, start);
            LexStep::Token { token: word_token(s.subrange(start as int, end as int)), next: end }
        } else if CharClass::Digit.holds(c) {
            let end = run_end(s, CharClass::Digit, start);
            let value = decimal_value(s.subrange(start as int, end as int));
            if value <= i32::MAX {
                LexStep::Token { token: SpecToken::Number(value as i32), next: end }
            } else {
                LexStep::Error(LexError::NumberOverflow)
            }
        } else if c == '"' {
            let close = run_end(s, CharClass::StringBody, start + 1);
            if close >= s.len() {
                LexStep::Error(LexError::UnterminatedString)
            } else {
                LexStep::Token {
                    token: SpecToken::StrLiteral(s.subrange(start as int + 1, close as int)),
                    next: close + 1,
                }
            }
        } else if c == '=' {
            if start + 1 < s.len() && s[start as int + 1] == '=' {
                LexStep::Token { token: SpecToken::EqEq, next: start + 2 }
            } else {
                LexStep::Token { token: SpecToken::Symbol('='), next: start + 1 }
            }
        } else {
            single_char_token(c, start)
        }
    }
}

/// Puts `token` in front of the tokens of `rest`, and keeps its error.
pub open spec fn prepend_token(token: SpecToken, rest: Result<Seq<SpecToken>, LexError>) -> Result<
    Seq<SpecToken>,
    LexError,
> {
    match rest {
        Ok(tokens) => Ok(seq![token] + tokens),
        Err(e) => Err(e),
    }
}

/// Puts `tokens` in front of the tokens of `rest`, and keeps its error.
pub open spec fn prepend_tokens(tokens: Seq<SpecToken>, rest: Result<Seq<SpecToken>, LexError>) -> Result<
    Seq<SpecToken>,
    LexError,
> {
    match rest {
        Ok(more) => Ok(tokens + more),
        Err(e) => Err(e),
    }
}

/// All the tokens of `s` from `i` on, or the first error met.
pub open spec fn lex_from(s: Seq<char>, i: nat) -> Result<Seq<SpecToken>, LexError>
    decreases s.len() - i,
    via lex_from_terminates
{
    match lex_at(s, i) {
        LexStep::End => Ok(Seq::empty()),
        LexStep::Error(e) => Err(e),
        LexStep::Token { token, next } => prepend_token(token, lex_from(s, next)),
    }
}

#[via_fn]
proof fn lex_from_terminates(s: Seq<char>, i: nat) {
    lemma_lex_at_advances(s, i);
}

/// A run ends at or after the place where it starts, and within the text if it
/// starts there; all of it is in the class, and what follows it is not.
pub proof fn lemma_run_end(s: Seq<char>, class: CharClass, i: nat)
    ensures
        i <= run_end(s, class, i),
        i <= s.len() ==> run_end(s, class, i) <= s.len(),
        forall|k: int| i <= k < run_end(s, class, i) ==> class.holds(#[trigger] s[k]),
        run_end(s, class, i) < s.len() ==> !class.holds(s[run_end(s, class, i) as int]),
    decreases s.len() - i,
{
    if i < s.len() && class.holds(s[i as int]) {
        lemma_run_end(s, class, i + 1);
    }
}

/// A token is never empty and never reaches past the end of the text.
pub proof fn lemma_lex_at_advances(s: Seq<char>, i: nat)
    ensures
        match lex_at(s, i) {
            LexStep::Token { token, next } => i < next <= s.len(),
            _ => true,
        },
{
    let start = run_end(s, CharClass::Blank, i);
    lemma_run_end(s, CharClass::Blank, i);
    if start < s.len() {
        lemma_run_end(s, CharClass::Letter, start);
        lemma_run_end(s, CharClass::Digit, start);
        lemma_run_end(s, CharClass::StringBody, start + 1);
    }
}

/// The value of a run of digits is at least that of each of its prefixes.
pub proof fn lemma_decimal_value_prefix(digits: Seq<char>, n: int)
    requires
        0 <= n <= digits.len(),
    ensures
        decimal_value(digits.take(n)) <= decimal_value(digits),
    decreases digits.len() - n,
{
    if n < digits.len() {
        lemma_decimal_value_prefix(digits.drop_last(), n);
        assert(digits.drop_last().take(n) =~= digits.take(n));
    } else {
        assert(digits.take(n) =~= digits);
    }
}

/// What is read depends on the text and the place alone: two tokenizers that
/// stand at the same place of the same text read the same tokens, or meet the
/// same error.
pub proof fn lemma_lexing_repeats(first: Tokenizer, second: Tokenizer)
    requires
        first.source() == second.source(),
        first.position() == second.position(),
    ensures
        lex_at(first.source(), first.position()) == lex_at(second.source(), second.position()),
        lex_from(first.source(), first.position()) == lex_from(
            second.source(),
            second.position(),
        ),
{
}

/// A reader of tokens from a text.
#[derive(Debug)]
pub struct Tokenizer<'a> {
    src: &'a str,
    len: usize,
    index: usize,
}

impl<'a> Tokenizer<'a> {
    #[verifier::type_invariant]
    spec fn well_formed(self) -> bool {
        &&& self.len == self.src@.len()
        &&& self.index <= self.len
    }

    /// The text that is read.
    pub closed spec fn source(&self) -> Seq<char> {
        self.src@
    }

    /// The place in the text where the next token is looked for.
    pub closed spec fn position(&self) -> nat {
        self.index as nat
    }

    /// A tokenizer at the start of `src`.
    pub fn new(src: &'a str) -> (tokenizer: Self)
        ensures
            tokenizer.source() == src@,
            tokenizer.position() == 0,
    {
        Self { src, len: src.unicode_len(), index: 0 }
    }

    /// The text that is read.
    pub fn src(&self) -> (src: &'a str)
        ensures
            src@ == self.source(),
    {
        self.src
    }

    /// The character at place `i`, if the text reaches that far.
    fn char_at(&self, i: usize) -> (c: Option<char>)
        ensures
            c == if i < self.source().len() {
                Some(self.source()[i as int])
            } else {
                None
            },
    {
        proof {
            use_type_invariant(self);
        }
        if i < self.len {
            Some(self.src.get_char(i))
        } else {
            None
        }
    }

    /// The character that the next token is looked for at, if any is left.
    pub fn peek(&self) -> (c: Option<char>)
        ensures
            c == if self.position() < self.source().len() {
                Some(self.source()[self.position() as int])
            } else {
                None
            },
    {
        self.char_at(self.index)
    }

    /// Finds where the run of `class` that starts at `from` ends.
    fn scan(&self, class: CharClass, from: usize) -> (end: usize)
        requires
            from <= self.source().len(),
        ensures
            end == run_end(self.source(), class, from as nat),
            from <= end <= self.source().len(),
    {
        proof {
            use_type_invariant(self);
            lemma_run_end(self.source(), class, from as nat);
        }
        let mut end = from;
        while end < self.len && class.contains(self.src.get_char(end))
            invariant
                self.len == self.src@.len(),
                from <= end <= self.len,
                run_end(self.source(), class, end as nat) == run_end(
                    self.source(),
                    class,
                    from as nat,
                ),
            decreases self.len - end,
        {
            end += 1;
        }
        end
    }

    /// Reads the digits from `start` up to `end` as a number.
    fn number(&self, start: usize, end: usize) -> (value: Option<i32>)
        requires
            start <= end <= self.source().len(),
            forall|k: int| start <= k < end ==> CharClass::Digit.holds(#[trigger] self.source()[k]),
        ensures
            value == if decimal_value(self.source().subrange(start as int, end as int))
                <= i32::MAX {
                Some(decimal_value(self.source().subrange(start as int, end as int)) as i32)
            } else {
                None
            },
    {
        proof {
            use_type_invariant(self);
        }
        let ghost digits = self.source().subrange(start as int, end as int);
        let mut value: i32 = 0;
        let mut i = start;
        while i < end
            invariant
                self.len == self.src@.len(),
                start <= i <= end <= self.len,
                digits == self.source().subrange(start as int, end as int),
                forall|k: int|
                    start <= k < end ==> CharClass::Digit.holds(#[trigger] self.source()[k]),
                value == decimal_value(digits.take(i - start)),
            decreases end - i,
        {
            let c = self.src.get_char(i);
            let digit = (c as u32 - '0' as u32) as i32;
            proof {
                assert(digits.take(i - start + 1).drop_last() =~= digits.take(i - start));
                assert(digits.take(i - start + 1).last() == c);
                assert(digit == digit_value(c));
                lemma_decimal_value_prefix(digits, i - start + 1);
            }
            if value > (i32::MAX - digit) / 10 {
                return None;
            }
            value = value * 10 + digit;
            i += 1;
        }
        proof {
            assert(digits.take(end - start) =~= digits);
        }
        Some(value)
    }

    /// Reads the next token, if there is one.
    ///
    /// On success the tokenizer stands behind the token, or at the end of the
    /// text if only blanks were left. On an error it stays where it was.
    pub fn lex(&mut self) -> (result: Result<Option<Token>, LexError>)
        ensures
            final(self).source() == old(self).source(),
            match lex_at(old(self).source(), old(self).position()) {
                LexStep::Token { token, next } => {
                    &&& result matches Ok(Some(t))
                    &&& t@ == token
                    &&& final(self).position() == next
                },
                LexStep::End => {
                    &&& result == Ok::<Option<Token>, LexError>(None)
                    &&& final(self).position() == old(self).source().len()
                },
                LexStep::Error(e) => {
                    &&& result == Err::<Option<Token>, LexError>(e)
                    &&& final(self).position() == old(self).position()
                },
            },
    {
        proof {
            use_type_invariant(&*self);
        }
        let start = self.scan(CharClass::Blank, self.index);
        let c = match self.char_at(start) {
            Some(c) => c,
            None => {
                self.index = start;
                return Ok(None);
            },
        };
        if CharClass::Letter.contains(c) {
            let end = self.scan(CharClass::Letter, start);
            let word = self.src.substring_char(start, end).to_owned();
            self.index = end;
            Ok(Some(Token::lookup(word)))
        } else if CharClass::Digit.contains(c) {
            let end = self.scan(CharClass::Digit, start);
            proof {
                lemma_run_end(self.source(), CharClass::Digit, start as nat);
            }
            match self.number(start, end) {
                Some(value) => {
                    self.index = end;
                    Ok(Some(Token::Number(value)))
                },
                None => Err(LexError::NumberOverflow),
            }
        } else if c == '"' {
            let close = self.scan(CharClass::StringBody, start + 1);
            if close >= self.len {
                Err(LexError::UnterminatedString)
            } else {
                let body = self.src.substring_char(start + 1, close).to_owned();
                self.index = close + 1;
                Ok(Some(Token::StrLiteral(body)))
            }
        } else if c == '=' {
            if self.char_at(start + 1) == Some('=') {
                self.index = start + 2;
                Ok(Some(Token::EqEq))
            } else {
                self.index = start + 1;
                Ok(Some(Token::Symbol('=')))
            }
        } else if c == '+' {
            self.index = start + 1;
            Ok(Some(Token::Add))
        } else if c == '-' {
            self.index = start + 1;
            Ok(Some(Token::Minus))
        } else if c == '*' {
            self.index = start + 1;
            Ok(Some(Token::Mul))
        } else if c == '/' {
            self.index = start + 1;
            Ok(Some(Token::Slash))
        } else if c == '(' || c == ')' || c == '.' || c == ';' || c == ',' || c == '{' || c == '}'
            || c == ':' {
            self.index = start + 1;
            Ok(Some(Token::Symbol(c)))
        } else {
            Err(LexError::UnexpectedChar { ch: c, offset: start })
        }
    }

    /// Reads all the tokens that are left.
    ///
    /// On success the tokenizer stands at the end of the text. On an error it
    /// stays where it was, and the tokens read before the error are dropped.
    pub fn lex_all(&mut self) -> (result: Result<VecDeque<Token>, LexError>)
        ensures
            final(self).source() == old(self).source(),
            match lex_from(old(self).source(), old(self).position()) {
                Ok(tokens) => {
                    &&& result matches Ok(queue)
                    &&& queue.deep_view() == tokens
                    &&& final(self).position() == old(self).source().len()
                },
                Err(e) => {
                    &&& result == Err::<VecDeque<Token>, LexError>(e)
                    &&& final(self).position() == old(self).position()
                },
            },
    {
        proof {
            use_type_invariant(&*self);
        }
        let start = self.index;
        let mut queue: VecDeque<Token> = VecDeque::new();
        loop
            invariant
                self.source() == old(self).source(),
                start == old(self).position(),
                start <= self.source().len(),
                lex_from(self.source(), start as nat) == prepend_tokens(
                    queue.deep_view(),
                    lex_from(self.source(), self.position()),
                ),
            decreases self.source().len() - self.position(),
        {
            proof {
                use_type_invariant(&*self);
                lemma_lex_at_advances(self.source(), self.position());
            }
            let ghost before = queue.deep_view();
            match self.lex() {
                Ok(Some(token)) => {
                    queue.push_back(token);
                    proof {
                        let rest = lex_from(self.source(), self.position());
                        assert(queue.deep_view() =~= before.push(token@));
                        if let Ok(tokens) = rest {
                            assert(before + (seq![token@] + tokens) =~= before.push(token@)
                                + tokens);
                        }
                    }
                },
                Ok(None) => {
                    proof {
                        assert(before + Seq::<SpecToken>::empty() =~= before);
                    }
                    return Ok(queue);
                },
                Err(e) => {
                    proof {
                        use_type_invariant(&*self);
                    }
                    self.index = start;
                    return Err(e);
                },
            }
        }
    }
}

} // verus!

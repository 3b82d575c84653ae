use vstd::prelude::*;

use crate::utils::{Span, Spanned};
use vstd::std_specs::iter::IteratorSpec;

verus! {

pub type Token = Spanned<TokenData>;

pub type Char = Spanned<char>;

/// What a token is.
#[derive(Debug)]
pub enum TokenData {
    Identifier { value: String },
    FnLowercase,
    FnUppercase,
    Let,
    Return,
    Type,
    Underscore,
    Colon,
    Semicolon,
    Comma,
    OpenParen,
    CloseParen,
    OpenBrace,
    CloseBrace,
    Equals,
    Asterisk,
    Question,
    Apostrophe,
    AtSign,
    DoubleColon,
    Arrow,
    Eof,
}

/// What the tokenizer is in the middle of.
pub enum State {
    Neutral,
    Word { buffer: Vec<Char> },
    Symbol { start_span: Span, state: SymbolState },
}

/// The first character of a two-character symbol.
pub enum SymbolState {
    Hyphen,
    Colon,
}

/// A character that starts no token, at the given character position.
#[derive(Clone, Copy, PartialEq, Eq, Structural, Debug)]
pub struct Error {
    pub location: usize,
}

/// The characters of the text and the position of the next one.
pub struct Spool {
    pub chars: Vec<Char>,
    pub index: usize,
}

/// The tokenizer's state machine.
pub struct Tokenizer {
    pub state: State,
    pub spool: Spool,
    pub output: Vec<Token>,
    /// The tokens of `output` as positions in the text.
    pub lexed: Ghost<Seq<Lexed>>,
}

/// What one step asks for next.
pub enum Action {
    Stop,
    Continue,
    Error(Error),
}

/// The tokenizer's output.
#[derive(Debug)]
pub struct TokenizationOutput {
    pub tokens: Vec<Token>,
    /// The number of characters read.
    pub end: usize,
}

/// The model of a token's data.
pub enum Lexeme {
    Identifier(Seq<char>),
    FnLowercase,
    FnUppercase,
    Let,
    Return,
    Type,
    Underscore,
    Colon,
    Semicolon,
    Comma,
    OpenParen,
    CloseParen,
    OpenBrace,
    CloseBrace,
    Equals,
    Asterisk,
    Question,
    Apostrophe,
    AtSign,
    DoubleColon,
    Arrow,
    Eof,
}

/// A token as a lexeme and the positions `[start, end)` of its characters.
pub struct Lexed {
    pub lexeme: Lexeme,
    pub start: nat,
    pub end: nat,
}

pub open spec fn lexeme_of(d: TokenData) -> Lexeme {
    match d {
        TokenData::Identifier { value } => Lexeme::Identifier(value@),
        TokenData::FnLowercase => Lexeme::FnLowercase,
        TokenData::FnUppercase => Lexeme::FnUppercase,
        TokenData::Let => Lexeme::Let,
        TokenData::Return => Lexeme::Return,
        TokenData::Type => Lexeme::Type,
        TokenData::Underscore => Lexeme::Underscore,
        TokenData::Colon => Lexeme::Colon,
        TokenData::Semicolon => Lexeme::Semicolon,
        TokenData::Comma => Lexeme::Comma,
        TokenData::OpenParen => Lexeme::OpenParen,
        TokenData::CloseParen => Lexeme::CloseParen,
        TokenData::OpenBrace => Lexeme::OpenBrace,
        TokenData::CloseBrace => Lexeme::CloseBrace,
        TokenData::Equals => Lexeme::Equals,
        TokenData::Asterisk => Lexeme::Asterisk,
        TokenData::Question => Lexeme::Question,
        TokenData::Apostrophe => Lexeme::Apostrophe,
        TokenData::AtSign => Lexeme::AtSign,
        TokenData::DoubleColon => Lexeme::DoubleColon,
        TokenData::Arrow => Lexeme::Arrow,
        TokenData::Eof => Lexeme::Eof,
    }
}

pub open spec fn spec_is_whitespace(c: char) -> bool {
    c == ' ' || c == '\n' || c == '\t'
}

pub open spec fn spec_is_word_start(c: char) -> bool {
    ('a' <= c <= 'z') || ('A' <= c <= 'Z') || c == '_'
}

pub open spec fn spec_is_word_continue(c: char) -> bool {
    ('a' <= c <= 'z') || ('A' <= c <= 'Z') || ('0' <= c <= '9') || c == '_'
}

/// The lexeme of a word: a keyword, or an identifier.
pub open spec fn word_lexeme(w: Seq<char>) -> Lexeme {
    if w == seq!['f', 'n'] {
        Lexeme::FnLowercase
    } else if w == seq!['F', 'n'] {
        Lexeme::FnUppercase
    } else if w == seq!['l', 'e', 't'] {
        Lexeme::Let
    } else if w == seq!['r', 'e', 't', 'u', 'r', 'n'] {
        Lexeme::Return
    } else if w == seq!['t', 'y', 'p', 'e'] {
        Lexeme::Type
    } else if w == seq!['_'] {
        Lexeme::Underscore
    } else {
        Lexeme::Identifier(w)
    }
}

/// The lexeme of a character that is a token by itself.
pub open spec fn single_char_lexeme(c: char) -> Option<Lexeme> {
    if c == ';' {
        Some(Lexeme::Semicolon)
    } else if c == ',' {
        Some(Lexeme::Comma)
    } else if c == '(' {
        Some(Lexeme::OpenParen)
    } else if c == ')' {
        Some(Lexeme::CloseParen)
    } else if c == '{' {
        Some(Lexeme::OpenBrace)
    } else if c == '}' {
        Some(Lexeme::CloseBrace)
    } else if c == '=' {
        Some(Lexeme::Equals)
    } else if c == '*' {
        Some(Lexeme::Asterisk)
    } else if c == '?' {
        Some(Lexeme::Question)
    } else if c == '@' {
        Some(Lexeme::AtSign)
    } else if c == '\'' {
        Some(Lexeme::Apostrophe)
    } else {
        None
    }
}

/// `r` with `first` put in front of the tokens it carries.
pub open spec fn cons(first: Lexed, r: Result<Seq<Lexed>, nat>) -> Result<Seq<Lexed>, nat> {
    match r {
        Ok(rest) => Ok(seq![first] + rest),
        Err(e) => Err(e),
    }
}

/// `r` with `prefix` put in front of the tokens it carries.
pub open spec fn prepend(prefix: Seq<Lexed>, r: Result<Seq<Lexed>, nat>) -> Result<Seq<Lexed>, nat> {
    match r {
        Ok(rest) => Ok(prefix + rest),
        Err(e) => Err(e),
    }
}

/// The tokens of `s` from position `i` on, or the position of the first
/// character that starts no token.
pub open spec fn lex(s: Seq<char>, i: nat) -> Result<Seq<Lexed>, nat>
    decreases s.len() - i, 0nat,
{
    if i >= s.len() {
        Ok(Seq::empty())
    } else {
        let c = s[i as int];
        if spec_is_whitespace(c) {
            lex(s, i + 1)
        } else if spec_is_word_start(c) {
            lex_word(s, i, i + 1)
        } else if single_char_lexeme(c) is Some {
            cons(Lexed { lexeme: single_char_lexeme(c)->0, start: i, end: i + 1 }, lex(s, i + 1))
        } else if c == '-' {
            if i + 1 < s.len() && s[i + 1 as int] == '>' {
                cons(Lexed { lexeme: Lexeme::Arrow, start: i, end: i + 2 }, lex(s, i + 2))
            } else {
                Err(i + 1)
            }
        } else if c == ':' {
            if i + 1 < s.len() && s[i + 1 as int] == ':' {
                cons(Lexed { lexeme: Lexeme::DoubleColon, start: i, end: i + 2 }, lex(s, i + 2))
            } else {
                cons(Lexed { lexeme: Lexeme::Colon, start: i, end: i + 1 }, lex(s, i + 1))
            }
        } else {
            Err(i)
        }
    }
}

/// The tokens of `s` from the word that starts at `start` and goes on at
/// least to `j`.
pub open spec fn lex_word(s: Seq<char>, start: nat, j: nat) -> Result<Seq<Lexed>, nat>
    decreases s.len() - j, 1nat,
{
    if j > s.len() {
        Err(j)
    } else if j < s.len() && spec_is_word_continue(s[j as int]) {
        lex_word(s, start, j + 1)
    } else {
        cons(
            Lexed { lexeme: word_lexeme(s.subrange(start as int, j as int)), start, end: j },
            lex(s, j),
        )
    }
}

/// The characters of a spanned sequence.
pub open spec fn text_of(chars: Seq<Char>) -> Seq<char> {
    chars.map_values(|c: Char| c.data)
}

/// `token` is `lexed`, spanning the characters it covers in `chars`.
pub open spec fn token_is(token: Token, lexed: Lexed, chars: Seq<Char>) -> bool {
    &&& lexeme_of(token.data) == lexed.lexeme
    &&& lexed.start < lexed.end <= chars.len()
    &&& token.span == (Span {
        start: chars[lexed.start as int].span.start,
        end: chars[lexed.end - 1].span.end,
    })
}

/// `tokens` are `lexed`, one for one.
pub open spec fn tokens_are(tokens: Seq<Token>, lexed: Seq<Lexed>, chars: Seq<Char>) -> bool {
    &&& tokens.len() == lexed.len()
    &&& forall|k: int| 0 <= k < tokens.len() ==> token_is(#[trigger] tokens[k], lexed[k], chars)
}

/// Whether `chr` separates tokens.
pub fn is_whitespace(chr: char) -> (r: bool)
    ensures
        r == spec_is_whitespace(chr),
{
    chr == ' ' || chr == '\n' || chr == '\t'
}

/// Whether `chr` can start a word.
pub fn is_word_start(chr: char) -> (r: bool)
    ensures
        r == spec_is_word_start(chr),
{
    ('a' <= chr && chr <= 'z') || ('A' <= chr && chr <= 'Z') || chr == '_'
}

/// Whether `chr` can go on a word.
pub fn is_word_continue(chr: char) -> (r: bool)
    ensures
        r == spec_is_word_continue(chr),
{
    ('a' <= chr && chr <= 'z') || ('A' <= chr && chr <= 'Z') || ('0' <= chr && chr <= '9')
        || chr == '_'
}

/// Relies on std's `String::push`, which appends one character.
#[verifier::external_body]
fn push_char(s: &mut String, c: char)
    ensures
        final(s)@ == old(s)@.push(c),
{
    s.push(c)
}

impl Spool {
    /// The next character, if any.
    pub fn peek(&self) -> (r: Option<Char>)
        ensures
            self.index < self.chars@.len() ==> r == Some(self.chars@[self.index as int]),
            self.index >= self.chars@.len() ==> r is None,
    {
        if self.index < self.chars.len() {
            Some(self.chars[self.index])
        } else {
            None
        }
    }

    /// Moves past the next character.
    pub fn advance(&mut self)
        requires
            old(self).index < old(self).chars@.len(),
        ensures
            final(self).index == old(self).index + 1,
            final(self).chars == old(self).chars,
    {
        assert(self.index < self.chars.len());
        self.index += 1;
    }
}

/// The token for a word whose characters are `buffer`.
pub fn emit_word_token(buffer: &[Char]) -> (r: Token)
    requires
        buffer@.len() > 0,
    ensures
        lexeme_of(r.data) == word_lexeme(text_of(buffer@)),
        r.span == (Span { start: buffer@[0].span.start, end: buffer@[buffer@.len() - 1].span.end }),
{
    let ghost w = text_of(buffer@);
    let mut value = String::new();
    let mut i: usize = 0;
    while i < buffer.len()
        invariant
            i <= buffer@.len(),
            w == text_of(buffer@),
            value@ == w.subrange(0, i as int),
        decreases buffer@.len() - i,
    {
        push_char(&mut value, buffer[i].data);
        i += 1;
        assert(value@ =~= w.subrange(0, i as int));
    }
    assert(value@ =~= w);
    let span = Span { start: buffer[0].span.start, end: buffer[buffer.len() - 1].span.end };
    let n = buffer.len();
    let data = if n == 2 && buffer[0].data == 'f' && buffer[1].data == 'n' {
        assert(w =~= seq!['f', 'n']);
        TokenData::FnLowercase
    } else if n == 2 && buffer[0].data == 'F' && buffer[1].data == 'n' {
        assert(w =~= seq!['F', 'n']);
        TokenData::FnUppercase
    } else if n == 3 && buffer[0].data == 'l' && buffer[1].data == 'e' && buffer[2].data == 't' {
        assert(w =~= seq!['l', 'e', 't']);
        TokenData::Let
    } else if n == 6 && buffer[0].data == 'r' && buffer[1].data == 'e' && buffer[2].data == 't'
        && buffer[3].data == 'u' && buffer[4].data == 'r' && buffer[5].data == 'n' {
        assert(w =~= seq!['r', 'e', 't', 'u', 'r', 'n']);
        TokenData::Return
    } else if n == 4 && buffer[0].data == 't' && buffer[1].data == 'y' && buffer[2].data == 'p'
        && buffer[3].data == 'e' {
        assert(w =~= seq!['t', 'y', 'p', 'e']);
        TokenData::Type
    } else if n == 1 && buffer[0].data == '_' {
        assert(w =~= seq!['_']);
        TokenData::Underscore
    } else {
        proof {
            if w == seq!['f', 'n'] || w == seq!['F', 'n'] {
                assert(w[0] == buffer@[0].data && w[1] == buffer@[1].data);
            }
            if w == seq!['l', 'e', 't'] {
                assert(w[2] == buffer@[2].data && w[1] == buffer@[1].data && w[0] == buffer@[0].data);
            }
            if w == seq!['t', 'y', 'p', 'e'] {
                assert(w[3] == buffer@[3].data && w[2] == buffer@[2].data && w[1]
                    == buffer@[1].data && w[0] == buffer@[0].data);
            }
            if w == seq!['r', 'e', 't', 'u', 'r', 'n'] {
                assert(w[5] == buffer@[5].data && w[4] == buffer@[4].data && w[3]
                    == buffer@[3].data && w[2] == buffer@[2].data && w[1] == buffer@[1].data
                    && w[0] == buffer@[0].data);
            }
            if w == seq!['_'] {
                assert(w[0] == buffer@[0].data);
            }
        }
        TokenData::Identifier { value }
    };
    Token { data, span }
}


/// Putting a token in front, then a prefix, is putting the longer prefix.
pub proof fn lemma_prepend_cons(prefix: Seq<Lexed>, first: Lexed, r: Result<Seq<Lexed>, nat>)
    ensures
        prepend(prefix, cons(first, r)) == prepend(prefix.push(first), r),
{
    if let Ok(rest) = r {
        assert(prefix + (seq![first] + rest) =~= prefix.push(first) + rest);
    }
}

impl Tokenizer {
    /// The characters of the text.
    pub open spec fn text(self) -> Seq<char> {
        text_of(self.spool.chars@)
    }

    /// Decreases with every step that does not finish.
    pub open spec fn measure(self) -> nat {
        (2 * (self.spool.chars@.len() - self.spool.index) + if self.state is Neutral {
            0int
        } else {
            1int
        }) as nat
    }

    /// The output so far, followed by the tokens from the current state on,
    /// are the tokens of the whole text.
    pub open spec fn inv(self) -> bool {
        let s = self.text();
        let chars = self.spool.chars@;
        let i = self.spool.index as int;
        &&& i <= chars.len()
        &&& tokens_are(self.output@, self.lexed@, chars)
        &&& match self.state {
            State::Neutral => lex(s, 0) == prepend(self.lexed@, lex(s, i as nat)),
            State::Word { buffer } => {
                &&& 0 < buffer@.len() <= i
                &&& buffer@ == chars.subrange(i - buffer@.len(), i)
                &&& spec_is_word_start(s[i - buffer@.len()])
                &&& lex(s, 0) == prepend(
                    self.lexed@,
                    lex_word(s, (i - buffer@.len()) as nat, i as nat),
                )
            },
            State::Symbol { start_span, state } => {
                &&& 0 < i
                &&& start_span == chars[i - 1].span
                &&& (state is Hyphen ==> s[i - 1] == '-')
                &&& (state is Colon ==> s[i - 1] == ':')
                &&& lex(s, 0) == prepend(self.lexed@, lex(s, (i - 1) as nat))
            },
        }
    }

    /// Emits the one-character token `data` for the next character `chr`.
    pub fn emit_single_char(&mut self, chr: Char, data: TokenData) -> (r: Action)
        requires
            old(self).spool.index < old(self).spool.chars@.len(),
        ensures
            r is Continue,
            final(self).output@ == old(self).output@.push(Token { data, span: chr.span }),
            final(self).spool.index == old(self).spool.index + 1,
            final(self).spool.chars == old(self).spool.chars,
            final(self).state == old(self).state,
            final(self).lexed == old(self).lexed,
    {
        self.output.push(Token { data, span: chr.span });
        self.spool.advance();
        Action::Continue
    }

    /// One step of the state machine.
    pub fn step(&mut self) -> (r: Action)
        requires
            old(self).inv(),
        ensures
            final(self).spool.chars == old(self).spool.chars,
            r is Continue ==> final(self).inv() && final(self).measure() < old(self).measure(),
            r is Stop ==> final(self).spool.index == final(self).spool.chars@.len() && tokens_are(
                final(self).output@,
                final(self).lexed@,
                final(self).spool.chars@,
            ) && lex(old(self).text(), 0) == Ok::<Seq<Lexed>, nat>(final(self).lexed@),
            r matches Action::Error(e) ==> lex(old(self).text(), 0) == Err::<Seq<Lexed>, nat>(
                e.location as nat,
            ),
            old(self).state is Neutral && old(self).spool.index < old(self).spool.chars@.len()
                && single_char_lexeme(old(self).text()[old(self).spool.index as int]) is Some ==> {
                &&& r is Continue
                &&& final(self).state is Neutral
                &&& final(self).spool.index == old(self).spool.index + 1
                &&& final(self).output@.len() == old(self).output@.len() + 1
                &&& final(self).output@.drop_last() == old(self).output@
                &&& lexeme_of(final(self).output@.last().data) == single_char_lexeme(
                    old(self).text()[old(self).spool.index as int],
                )->0
                &&& final(self).output@.last().span == old(self).spool.chars@[old(
                    self,
                ).spool.index as int].span
            },
    {
        let ghost s = self.text();
        let ghost chars = self.spool.chars@;
        let ghost i = self.spool.index as nat;
        let ghost lexed = self.lexed@;
        let mut state = State::Neutral;
        core::mem::swap(&mut self.state, &mut state);
        match state {
            State::Neutral => {
                let chr = match self.spool.peek() {
                    Some(c) => c,
                    None => {
                        assert(lexed + Seq::<Lexed>::empty() =~= lexed);
                        return Action::Stop;
                    },
                };
                assert(chr.data == s[i as int]);
                if is_whitespace(chr.data) {
                    self.spool.advance();
                    return Action::Continue;
                }
                if is_word_start(chr.data) {
                    let mut buffer: Vec<Char> = Vec::new();
                    buffer.push(chr);
                    self.state = State::Word { buffer };
                    self.spool.advance();
                    assert(buffer@ =~= chars.subrange(i as int, i + 1 as int));
                    return Action::Continue;
                }
                let single = if chr.data == ';' {
                    Some(TokenData::Semicolon)
                } else if chr.data == ',' {
                    Some(TokenData::Comma)
                } else if chr.data == '(' {
                    Some(TokenData::OpenParen)
                } else if chr.data == ')' {
                    Some(TokenData::CloseParen)
                } else if chr.data == '{' {
                    Some(TokenData::OpenBrace)
                } else if chr.data == '}' {
                    Some(TokenData::CloseBrace)
                } else if chr.data == '=' {
                    Some(TokenData::Equals)
                } else if chr.data == '*' {
                    Some(TokenData::Asterisk)
                } else if chr.data == '?' {
                    Some(TokenData::Question)
                } else if chr.data == '@' {
                    Some(TokenData::AtSign)
                } else if chr.data == '\'' {
                    Some(TokenData::Apostrophe)
                } else {
                    None
                };
                if let Some(data) = single {
                    let ghost first = Lexed {
                        lexeme: single_char_lexeme(chr.data)->0,
                        start: i,
                        end: i + 1,
                    };
                    let ghost before_output = self.output@;
                    let r = self.emit_single_char(chr, data);
                    self.lexed = Ghost(lexed.push(first));
                    proof {
                        assert(self.output@.drop_last() =~= before_output);
                        lemma_prepend_cons(lexed, first, lex(s, i + 1));
                        assert(token_is(self.output@[lexed.len() as int], first, chars));
                    }
                    return r;
                }
                if chr.data == '-' {
                    self.state = State::Symbol { start_span: chr.span, state: SymbolState::Hyphen };
                    self.spool.advance();
                    return Action::Continue;
                }
                if chr.data == ':' {
                    self.state = State::Symbol { start_span: chr.span, state: SymbolState::Colon };
                    self.spool.advance();
                    return Action::Continue;
                }
                Action::Error(Error { location: self.spool.index })
            },
            State::Word { buffer } => {
                let mut buffer = buffer;
                let ghost start = (i - buffer@.len()) as nat;
                let chr = match self.spool.peek() {
                    Some(c) => c,
                    None => {
                        let token = emit_word_token(buffer.as_slice());
                        let ghost word = Lexed {
                            lexeme: word_lexeme(s.subrange(start as int, i as int)),
                            start,
                            end: i,
                        };
                        self.output.push(token);
                        self.lexed = Ghost(lexed.push(word));
                        proof {
                            assert(text_of(buffer@) =~= s.subrange(start as int, i as int));
                            lemma_prepend_cons(lexed, word, lex(s, i));
                            assert(lexed.push(word) + Seq::<Lexed>::empty() =~= lexed.push(word));
                            assert(token_is(self.output@[lexed.len() as int], word, chars));
                        }
                        return Action::Stop;
                    },
                };
                assert(chr.data == s[i as int]);
                if !is_word_continue(chr.data) {
                    let token = emit_word_token(buffer.as_slice());
                    let ghost word = Lexed {
                        lexeme: word_lexeme(s.subrange(start as int, i as int)),
                        start,
                        end: i,
                    };
                    self.output.push(token);
                    self.lexed = Ghost(lexed.push(word));
                    proof {
                        assert(text_of(buffer@) =~= s.subrange(start as int, i as int));
                        lemma_prepend_cons(lexed, word, lex(s, i));
                        assert(token_is(self.output@[lexed.len() as int], word, chars));
                    }
                    return Action::Continue;
                }
                buffer.push(chr);
                self.spool.advance();
                assert(buffer@ =~= chars.subrange(start as int, i + 1 as int));
                self.state = State::Word { buffer };
                Action::Continue
            },
            State::Symbol { start_span, state: symbol } => match symbol {
                SymbolState::Hyphen => {
                    match self.spool.peek() {
                        Some(chr) => {
                            if chr.data == '>' {
                                let ghost arrow = Lexed {
                                    lexeme: Lexeme::Arrow,
                                    start: (i - 1) as nat,
                                    end: i + 1,
                                };
                                self.output.push(
                                    Token {
                                        data: TokenData::Arrow,
                                        span: Span { start: start_span.start, end: chr.span.end },
                                    },
                                );
                                self.lexed = Ghost(lexed.push(arrow));
                                self.spool.advance();
                                proof {
                                    lemma_prepend_cons(lexed, arrow, lex(s, i + 1));
                                    assert(token_is(
                                        self.output@[lexed.len() as int],
                                        arrow,
                                        chars,
                                    ));
                                }
                                return Action::Continue;
                            }
                        },
                        None => {},
                    }
                    Action::Error(Error { location: self.spool.index })
                },
                SymbolState::Colon => {
                    if let Some(chr) = self.spool.peek() {
                        if chr.data == ':' {
                            let ghost colons = Lexed {
                                lexeme: Lexeme::DoubleColon,
                                start: (i - 1) as nat,
                                end: i + 1,
                            };
                            self.output.push(
                                Token {
                                    data: TokenData::DoubleColon,
                                    span: Span { start: start_span.start, end: chr.span.end },
                                },
                            );
                            self.lexed = Ghost(lexed.push(colons));
                            self.spool.advance();
                            proof {
                                lemma_prepend_cons(lexed, colons, lex(s, i + 1));
                                assert(token_is(self.output@[lexed.len() as int], colons, chars));
                            }
                            return Action::Continue;
                        }
                    }
                    let ghost colon = Lexed { lexeme: Lexeme::Colon, start: (i - 1) as nat, end: i };
                    self.output.push(Token { data: TokenData::Colon, span: start_span });
                    self.lexed = Ghost(lexed.push(colon));
                    proof {
                        lemma_prepend_cons(lexed, colon, lex(s, i));
                        assert(token_is(self.output@[lexed.len() as int], colon, chars));
                    }
                    Action::Continue
                },
            },
        }
    }
}

/// The number of bytes of `c` in UTF-8.
pub open spec fn utf8_len(c: char) -> nat {
    let v = c as u32;
    if v < 0x80 {
        1
    } else if v < 0x800 {
        2
    } else if v < 0x10000 {
        3
    } else {
        4
    }
}

/// The byte offset of the character at position `i` of `s` in UTF-8.
pub open spec fn byte_offset(s: Seq<char>, i: nat) -> nat
    decreases i,
{
    if i == 0 || i > s.len() {
        0
    } else {
        byte_offset(s, (i - 1) as nat) + utf8_len(s[i - 1])
    }
}

/// Byte offsets grow with the position.
pub proof fn lemma_byte_offset_grows(s: Seq<char>, i: nat, j: nat)
    requires
        i <= j <= s.len(),
    ensures
        byte_offset(s, i) <= byte_offset(s, j),
    decreases j,
{
    if i < j {
        lemma_byte_offset_grows(s, i, (j - 1) as nat);
    }
}

/// The number of bytes of `c` in UTF-8.
fn char_len(c: char) -> (r: usize)
    ensures
        r == utf8_len(c),
{
    let v = c as u32;
    if v < 0x80 {
        1
    } else if v < 0x800 {
        2
    } else if v < 0x10000 {
        3
    } else {
        4
    }
}

/// Splits `text` into tokens; each token's span holds byte offsets.
pub fn tokenize(text: &str) -> (r: Result<TokenizationOutput, Error>)
    requires
        byte_offset(text@, text@.len()) <= usize::MAX,
    ensures
        match lex(text@, 0) {
            Ok(lexed) => r matches Ok(out) && out.end == text@.len() && out.tokens@.len()
                == lexed.len() && forall|k: int|
                0 <= k < lexed.len() ==> lexeme_of(#[trigger] out.tokens@[k].data)
                    == lexed[k].lexeme && out.tokens@[k].span == (Span {
                    start: byte_offset(text@, lexed[k].start) as usize,
                    end: byte_offset(text@, lexed[k].end) as usize,
                }),
            Err(location) => r matches Err(e) && e.location == location,
        },
{
    broadcast use vstd::string::axiom_spec_iter, vstd::string::next_postcondition;

    let mut chars: Vec<Char> = Vec::new();
    let mut iter = text.chars();
    let mut offset: usize = 0;
    loop
        invariant
            IteratorSpec::remaining(&iter) == text@.subrange(chars@.len() as int, text@.len() as int),
            iter.obeys_prophetic_iter_laws(),
            chars@.len() <= text@.len(),
            offset == byte_offset(text@, chars@.len()),
            byte_offset(text@, text@.len()) <= usize::MAX,
            forall|k: int|
                0 <= k < chars@.len() ==> #[trigger] chars@[k] == (Char {
                    data: text@[k],
                    span: Span {
                        start: byte_offset(text@, k as nat) as usize,
                        end: byte_offset(text@, (k + 1) as nat) as usize,
                    },
                }),
        ensures
            chars@.len() == text@.len(),
            forall|k: int|
                0 <= k < chars@.len() ==> #[trigger] chars@[k] == (Char {
                    data: text@[k],
                    span: Span {
                        start: byte_offset(text@, k as nat) as usize,
                        end: byte_offset(text@, (k + 1) as nat) as usize,
                    },
                }),
        decreases text@.len() - chars@.len(),
    {
        match iter.next() {
            Some(c) => {
                let ghost k = chars@.len();
                let n = char_len(c);
                proof {
                    lemma_byte_offset_grows(text@, k + 1, text@.len());
                }
                chars.push(Char { data: c, span: Span { start: offset, end: offset + n } });
                offset = offset + n;
            },
            None => {
                break ;
            },
        }
    }
    assert(text_of(chars@) =~= text@);
    let ghost all = chars@;
    let mut tokenizer = Tokenizer {
        state: State::Neutral,
        spool: Spool { chars, index: 0 },
        output: Vec::new(),
        lexed: Ghost(Seq::empty()),
    };
    proof {
        match lex(text@, 0) {
            Ok(rest) => assert(Seq::<Lexed>::empty() + rest =~= rest),
            Err(_) => {},
        }
    }
    loop
        invariant
            tokenizer.inv(),
            tokenizer.spool.chars@ == all,
            text_of(all) == text@,
            forall|k: int|
                0 <= k < all.len() ==> #[trigger] all[k] == (Char {
                    data: text@[k],
                    span: Span {
                        start: byte_offset(text@, k as nat) as usize,
                        end: byte_offset(text@, (k + 1) as nat) as usize,
                    },
                }),
        decreases tokenizer.measure(),
    {
        match tokenizer.step() {
            Action::Continue => {},
            Action::Stop => {
                let ghost lexed = tokenizer.lexed@;
                proof {
                    assert forall|k: int| 0 <= k < lexed.len() implies #[trigger] tokenizer.output@[k].span
                        == (Span {
                        start: byte_offset(text@, lexed[k].start) as usize,
                        end: byte_offset(text@, lexed[k].end) as usize,
                    }) by {
                        assert(token_is(tokenizer.output@[k], lexed[k], all));
                        assert(all[lexed[k].start as int].span.start == byte_offset(
                            text@,
                            lexed[k].start,
                        ) as usize);
                        assert(all[lexed[k].end - 1].span.end == byte_offset(
                            text@,
                            lexed[k].end,
                        ) as usize);
                    }
                }
                return Ok(
                    TokenizationOutput { tokens: tokenizer.output, end: tokenizer.spool.index },
                );
            },
            Action::Error(e) => {
                return Err(e);
            },
        }
    }
}

} // verus!

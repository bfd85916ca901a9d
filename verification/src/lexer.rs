//! The tokenizer: a forward-only scanner that yields one token at a time
//! and stops for good at the first character that starts no token.

use vstd::prelude::*;
use vstd::string::StrSliceExecFns;
use crate::rules::{is_longest_match, lemma_next_lexeme_reads_longest_match, no_match};

verus! {

/// The kinds of token. A token carries no text of its own: the text is
/// the span of the source that it was read from.
#[derive(Debug, Clone, Copy, PartialEq, Eq, Structural)]
pub enum Token {
    /// A run of blanks. The tokenizer skips it and never yields it.
    Whitespace,
    Let,
    Colon,
    Equals,
    Plus,
    Minus,
    Star,
    Slash,
    Semicolon,
    StringLiteral,
    Number,
    Identifier,
    LParen,
    RParen,
    LBrace,
    RBrace,
    True,
    False,
    If,
    Else,
    Print,
    Eq,
    Ne,
    Lt,
    Le,
    Gt,
    Ge,
    NumberType,
    StringType,
    BooleanType,
    Comma,
}

/// A character that starts no token, by its offset in characters.
#[derive(Debug, Clone, Copy, PartialEq, Eq, Structural)]
pub struct LexError {
    pub position: usize,
}

/// The classes of character that a token may repeat.
#[derive(Debug, Clone, Copy, PartialEq, Eq, Structural)]
pub enum CharClass {
    /// Space, tab, line feed, form feed.
    Blank,
    /// `0` to `9`.
    Digit,
    /// A letter, a digit or `_`.
    Word,
}

pub open spec fn is_blank(c: char) -> bool {
    c == ' ' || c == '\t' || c == '\n' || c == '\x0c'
}

pub open spec fn is_digit(c: char) -> bool {
    '0' <= c <= '9'
}

pub open spec fn is_word_start(c: char) -> bool {
    ('a' <= c <= 'z') || ('A' <= c <= 'Z') || c == '_'
}

pub open spec fn is_word_part(c: char) -> bool {
    is_word_start(c) || is_digit(c)
}

impl CharClass {
    /// Whether `c` belongs to the class.
    pub open spec fn has(self, c: char) -> bool {
        match self {
            CharClass::Blank => is_blank(c),
            CharClass::Digit => is_digit(c),
            CharClass::Word => is_word_part(c),
        }
    }

    /// Whether `c` belongs to the class.
    pub fn contains(self, c: char) -> (r: bool)
        ensures
            r == self.has(c),
    {
        match self {
            CharClass::Blank => c == ' ' || c == '\t' || c == '\n' || c == '\x0c',
            CharClass::Digit => '0' <= c && c <= '9',
            CharClass::Word => ('a' <= c && c <= 'z') || ('A' <= c && c <= 'Z') || c == '_' || (
            '0' <= c && c <= '9'),
        }
    }
}

/// The reserved word that `word` spells, or `Identifier`.
pub open spec fn word_token(word: Seq<char>) -> Token {
    if word == seq!['l', 'e', 't'] {
        Token::Let
    } else if word == seq!['t', 'r', 'u', 'e'] {
        Token::True
    } else if word == seq!['f', 'a', 'l', 's', 'e'] {
        Token::False
    } else if word == seq!['i', 'f'] {
        Token::If
    } else if word == seq!['e', 'l', 's', 'e'] {
        Token::Else
    } else if word == seq!['p', 'r', 'i', 'n', 't'] {
        Token::Print
    } else if word == seq!['n', 'u', 'm', 'b', 'e', 'r'] {
        Token::NumberType
    } else if word == seq!['s', 't', 'r', 'i', 'n', 'g'] {
        Token::StringType
    } else if word == seq!['b', 'o', 'o', 'l', 'e', 'a', 'n'] {
        Token::BooleanType
    } else {
        Token::Identifier
    }
}

/// The token that the one character `c` spells, if any.
pub open spec fn mark_token(c: char) -> Option<Token> {
    if c == ':' {
        Some(Token::Colon)
    } else if c == '+' {
        Some(Token::Plus)
    } else if c == '-' {
        Some(Token::Minus)
    } else if c == '*' {
        Some(Token::Star)
    } else if c == '/' {
        Some(Token::Slash)
    } else if c == ';' {
        Some(Token::Semicolon)
    } else if c == '(' {
        Some(Token::LParen)
    } else if c == ')' {
        Some(Token::RParen)
    } else if c == '{' {
        Some(Token::LBrace)
    } else if c == '}' {
        Some(Token::RBrace)
    } else if c == ',' {
        Some(Token::Comma)
    } else {
        None
    }
}

/// Where the run of characters of `class` that starts at `pos` ends.
pub open spec fn run_end(src: Seq<char>, pos: int, class: CharClass) -> int
    decreases src.len() - pos,
{
    if 0 <= pos < src.len() && class.has(src[pos]) {
        run_end(src, pos + 1, class)
    } else {
        pos
    }
}

/// Where the string literal whose body goes on at `pos` ends: just after
/// the first quote that no backslash escapes. A backslash takes the next
/// character with it, which may not be a line feed. `None` where the
/// source ends before the literal does.
pub open spec fn string_end(src: Seq<char>, pos: int) -> Option<int>
    decreases src.len() - pos,
{
    if pos < 0 || pos >= src.len() {
        None
    } else if src[pos] == '"' {
        Some(pos + 1)
    } else if src[pos] == '\\' {
        if pos + 1 < src.len() && src[pos + 1] != '\n' {
            string_end(src, pos + 2)
        } else {
            None
        }
    } else {
        string_end(src, pos + 1)
    }
}

/// Whether `src` has the character `c` at `pos`.
pub open spec fn has_char(src: Seq<char>, pos: int, c: char) -> bool {
    0 <= pos < src.len() && src[pos] == c
}

/// The token that starts at `pos` and where it ends, or `None` where no
/// token starts there.
pub open spec fn scan(src: Seq<char>, pos: int) -> Option<(Token, int)>
    recommends
        0 <= pos < src.len(),
{
    let c = src[pos];
    if is_blank(c) {
        Some((Token::Whitespace, run_end(src, pos + 1, CharClass::Blank)))
    } else if is_digit(c) {
        Some((Token::Number, run_end(src, pos + 1, CharClass::Digit)))
    } else if is_word_start(c) {
        let end = run_end(src, pos + 1, CharClass::Word);
        Some((word_token(src.subrange(pos, end)), end))
    } else if c == '"' {
        match string_end(src, pos + 1) {
            Some(end) => Some((Token::StringLiteral, end)),
            None => None,
        }
    } else if c == '=' {
        if has_char(src, pos + 1, '=') {
            Some((Token::Eq, pos + 2))
        } else {
            Some((Token::Equals, pos + 1))
        }
    } else if c == '!' {
        if has_char(src, pos + 1, '=') {
            Some((Token::Ne, pos + 2))
        } else {
            None
        }
    } else if c == '<' {
        if has_char(src, pos + 1, '=') {
            Some((Token::Le, pos + 2))
        } else {
            Some((Token::Lt, pos + 1))
        }
    } else if c == '>' {
        if has_char(src, pos + 1, '=') {
            Some((Token::Ge, pos + 2))
        } else {
            Some((Token::Gt, pos + 1))
        }
    } else {
        match mark_token(c) {
            Some(token) => Some((token, pos + 1)),
            None => None,
        }
    }
}

/// What the tokenizer finds from a position on.
pub enum Lexed {
    /// Nothing but blanks up to the end of the source.
    End,
    /// No token starts at `at`, the first character that is no blank.
    Invalid { at: int },
    /// The next token, and its span.
    Found { token: Token, start: int, end: int },
}

/// The next token at or after `pos`, blanks skipped.
pub open spec fn next_lexeme(src: Seq<char>, pos: int) -> Lexed
    decreases src.len() - pos,
{
    if pos < 0 || pos >= src.len() {
        Lexed::End
    } else {
        match scan(src, pos) {
            None => Lexed::Invalid { at: pos },
            Some((token, end)) => if token == Token::Whitespace && pos < end <= src.len() {
                next_lexeme(src, end)
            } else {
                Lexed::Found { token, start: pos, end }
            },
        }
    }
}

/// A run ends inside the source, at or after its start.
pub proof fn lemma_run_end_bounds(src: Seq<char>, pos: int, class: CharClass)
    requires
        0 <= pos <= src.len(),
    ensures
        pos <= run_end(src, pos, class) <= src.len(),
        forall|i: int| pos <= i < run_end(src, pos, class) ==> class.has(#[trigger] src[i]),
        run_end(src, pos, class) < src.len() ==> !class.has(src[run_end(src, pos, class)]),
    decreases src.len() - pos,
{
    if pos < src.len() && class.has(src[pos]) {
        lemma_run_end_bounds(src, pos + 1, class);
    }
}

/// A string literal ends inside the source, after the position given.
pub proof fn lemma_string_end_bounds(src: Seq<char>, pos: int)
    requires
        0 <= pos,
    ensures
        string_end(src, pos) matches Some(end) ==> pos < end <= src.len(),
    decreases src.len() - pos,
{
    if pos < src.len() && src[pos] != '"' {
        if src[pos] == '\\' {
            if pos + 1 < src.len() && src[pos + 1] != '\n' {
                lemma_string_end_bounds(src, pos + 2);
            }
        } else {
            lemma_string_end_bounds(src, pos + 1);
        }
    }
}

/// A token is not empty and ends inside the source.
pub proof fn lemma_scan_bounds(src: Seq<char>, pos: int)
    requires
        0 <= pos < src.len(),
    ensures
        scan(src, pos) matches Some((_, end)) ==> pos < end <= src.len(),
{
    lemma_run_end_bounds(src, pos + 1, CharClass::Blank);
    lemma_run_end_bounds(src, pos + 1, CharClass::Digit);
    lemma_run_end_bounds(src, pos + 1, CharClass::Word);
    lemma_string_end_bounds(src, pos + 1);
}

/// A token together with its text.
pub struct Lexeme {
    pub token: Token,
    pub text: Seq<char>,
}

/// The tokens of `src` from `pos` on, up to the end of the source or to
/// the first character that starts no token.
pub open spec fn token_stream(src: Seq<char>, pos: int) -> Seq<Lexeme>
    decreases src.len() - pos,
{
    match next_lexeme(src, pos) {
        Lexed::Found { token, start, end } => if pos < end <= src.len() {
            seq![Lexeme { token, text: src.subrange(start, end) }] + token_stream(src, end)
        } else {
            Seq::empty()
        },
        _ => Seq::empty(),
    }
}

/// Where the tokens of `src` from `pos` on end in an error: the offset of
/// the first character that starts no token, or `None` where the tokens
/// reach the end of the source.
pub open spec fn stream_error(src: Seq<char>, pos: int) -> Option<int>
    decreases src.len() - pos,
{
    match next_lexeme(src, pos) {
        Lexed::Found { token, start, end } => if pos < end <= src.len() {
            stream_error(src, end)
        } else {
            None
        },
        Lexed::Invalid { at } => Some(at),
        Lexed::End => None,
    }
}

/// The lexemes that tokens with their texts denote.
pub open spec fn lexemes_of(tokens: Seq<(Token, String)>) -> Seq<Lexeme> {
    tokens.map_values(|pair: (Token, String)| Lexeme { token: pair.0, text: pair.1@ })
}

/// The token found lies at or after the position asked from, is no
/// blank, and is the one that `scan` reads at its start; an error is
/// found again from the place where it was found.
pub proof fn lemma_next_lexeme(src: Seq<char>, pos: int)
    requires
        0 <= pos <= src.len(),
    ensures
        match next_lexeme(src, pos) {
            Lexed::End => true,
            Lexed::Invalid { at } => {
                &&& pos <= at < src.len()
                &&& scan(src, at) is None
                &&& next_lexeme(src, at) == next_lexeme(src, pos)
            },
            Lexed::Found { token, start, end } => {
                &&& pos <= start < end <= src.len()
                &&& token != Token::Whitespace
                &&& scan(src, start) == Some((token, end))
            },
        },
    decreases src.len() - pos,
{
    if pos < src.len() {
        lemma_scan_bounds(src, pos);
        match scan(src, pos) {
            Some((token, end)) => {
                if token == Token::Whitespace {
                    lemma_next_lexeme(src, end);
                }
            },
            None => {},
        }
    }
}

/// A tokenizer over one source text. It only moves forward; the text of
/// the token it yielded last is its current slice.
pub struct Lexer<'a> {
    text: &'a str,
    chars: Vec<char>,
    start: usize,
    end: usize,
}

impl<'a> Lexer<'a> {
    #[verifier::type_invariant]
    spec fn well_formed(self) -> bool {
        &&& self.chars@ == self.text@
        &&& self.start <= self.end <= self.chars.len()
    }

    /// The whole source text.
    pub closed spec fn source(&self) -> Seq<char> {
        self.chars@
    }

    /// Where the next token is looked for.
    pub closed spec fn position(&self) -> int {
        self.end as int
    }

    /// Where the current slice starts; it ends at `position`.
    pub closed spec fn slice_start(&self) -> int {
        self.start as int
    }

    /// The current slice: the text of the token yielded last.
    pub open spec fn slice_text(&self) -> Seq<char> {
        self.source().subrange(self.slice_start(), self.position())
    }

    /// A tokenizer at the start of `source`, with an empty slice.
    pub fn new(source: &'a str) -> (r: Self)
        ensures
            r.source() == source@,
            r.position() == 0,
            r.slice_start() == 0,
    {
        let mut chars: Vec<char> = Vec::new();
        for c in it: source.chars()
            invariant
                it.seq() == source@,
                chars@ == it.seq().take(it.index() as int),
        {
            chars.push(c);
        }
        assert(chars@ =~= source@);
        Lexer { text: source, chars, start: 0, end: 0 }
    }

    /// The end of the run of `class` that starts at `from`.
    fn scan_run(&self, from: usize, class: CharClass) -> (end: usize)
        requires
            from <= self.source().len(),
        ensures
            end == run_end(self.source(), from as int, class),
            from <= end <= self.source().len(),
    {
        let mut i = from;
        while i < self.chars.len() && class.contains(self.chars[i])
            invariant
                from <= i <= self.chars.len(),
                run_end(self.chars@, i as int, class) == run_end(self.chars@, from as int, class),
            decreases self.chars.len() - i,
        {
            i += 1;
        }
        i
    }

    /// The end of the string literal whose body starts at `from`.
    fn scan_string(&self, from: usize) -> (r: Option<usize>)
        requires
            from <= self.source().len(),
        ensures
            match r {
                Some(end) => string_end(self.source(), from as int) == Some(end as int) && from
                    < end <= self.source().len(),
                None => string_end(self.source(), from as int) is None,
            },
    {
        let n = self.chars.len();
        let mut i = from;
        loop
            invariant
                n == self.chars.len(),
                from <= i <= n,
                string_end(self.chars@, i as int) == string_end(self.chars@, from as int),
            decreases n - i,
        {
            if i >= n {
                return None;
            }
            let c = self.chars[i];
            if c == '"' {
                return Some(i + 1);
            }
            if c == '\\' {
                if i + 1 < n && self.chars[i + 1] != '\n' {
                    i += 2;
                } else {
                    return None;
                }
            } else {
                i += 1;
            }
        }
    }

    /// Whether the source spells `word` from `start` to `end`.
    fn spells(&self, start: usize, end: usize, word: &str) -> (r: bool)
        requires
            start <= end <= self.source().len(),
        ensures
            r == (self.source().subrange(start as int, end as int) == word@),
    {
        let len = word.unicode_len();
        if end - start != len {
            return false;
        }
        let mut i: usize = 0;
        while i < len
            invariant
                i <= len,
                len == word@.len(),
                end - start == len,
                end <= self.chars.len(),
                forall|j: int| 0 <= j < i ==> self.chars@[start + j] == word@[j],
            decreases len - i,
        {
            if self.chars[start + i] != word.get_char(i) {
                assert(self.chars@.subrange(start as int, end as int)[i as int] != word@[i as int]);
                return false;
            }
            i += 1;
        }
        assert(self.chars@.subrange(start as int, end as int) =~= word@);
        true
    }

    /// The token of the word from `start` to `end`.
    fn classify_word(&self, start: usize, end: usize) -> (r: Token)
        requires
            start <= end <= self.source().len(),
        ensures
            r == word_token(self.source().subrange(start as int, end as int)),
    {
        proof {
            reveal_strlit("let");
            reveal_strlit("true");
            reveal_strlit("false");
            reveal_strlit("if");
            reveal_strlit("else");
            reveal_strlit("print");
            reveal_strlit("number");
            reveal_strlit("string");
            reveal_strlit("boolean");
            assert("let"@ =~= seq!['l', 'e', 't']);
            assert("true"@ =~= seq!['t', 'r', 'u', 'e']);
            assert("false"@ =~= seq!['f', 'a', 'l', 's', 'e']);
            assert("if"@ =~= seq!['i', 'f']);
            assert("else"@ =~= seq!['e', 'l', 's', 'e']);
            assert("print"@ =~= seq!['p', 'r', 'i', 'n', 't']);
            assert("number"@ =~= seq!['n', 'u', 'm', 'b', 'e', 'r']);
            assert("string"@ =~= seq!['s', 't', 'r', 'i', 'n', 'g']);
            assert("boolean"@ =~= seq!['b', 'o', 'o', 'l', 'e', 'a', 'n']);
        }
        if self.spells(start, end, "let") {
            Token::Let
        } else if self.spells(start, end, "true") {
            Token::True
        } else if self.spells(start, end, "false") {
            Token::False
        } else if self.spells(start, end, "if") {
            Token::If
        } else if self.spells(start, end, "else") {
            Token::Else
        } else if self.spells(start, end, "print") {
            Token::Print
        } else if self.spells(start, end, "number") {
            Token::NumberType
        } else if self.spells(start, end, "string") {
            Token::StringType
        } else if self.spells(start, end, "boolean") {
            Token::BooleanType
        } else {
            Token::Identifier
        }
    }

    /// The token of the one character `c`.
    fn classify_mark(c: char) -> (r: Option<Token>)
        ensures
            r == mark_token(c),
    {
        if c == ':' {
            Some(Token::Colon)
        } else if c == '+' {
            Some(Token::Plus)
        } else if c == '-' {
            Some(Token::Minus)
        } else if c == '*' {
            Some(Token::Star)
        } else if c == '/' {
            Some(Token::Slash)
        } else if c == ';' {
            Some(Token::Semicolon)
        } else if c == '(' {
            Some(Token::LParen)
        } else if c == ')' {
            Some(Token::RParen)
        } else if c == '{' {
            Some(Token::LBrace)
        } else if c == '}' {
            Some(Token::RBrace)
        } else if c == ',' {
            Some(Token::Comma)
        } else {
            None
        }
    }

    /// Whether an `=` follows the character at `pos`.
    fn equals_follows(&self, pos: usize) -> (r: bool)
        requires
            pos < self.source().len(),
        ensures
            r == has_char(self.source(), pos + 1, '='),
    {
        let n = self.chars.len();
        pos + 1 < n && self.chars[pos + 1] == '='
    }

    /// The token that starts at `pos`, and where it ends.
    fn scan_at(&self, pos: usize) -> (r: Option<(Token, usize)>)
        requires
            pos < self.source().len(),
        ensures
            match r {
                Some((token, end)) => scan(self.source(), pos as int) == Some((token, end as int))
                    && pos < end <= self.source().len(),
                None => scan(self.source(), pos as int) is None,
            },
    {
        proof {
            lemma_scan_bounds(self.chars@, pos as int);
        }
        let n = self.chars.len();
        let c = self.chars[pos];
        if CharClass::Blank.contains(c) {
            Some((Token::Whitespace, self.scan_run(pos + 1, CharClass::Blank)))
        } else if CharClass::Digit.contains(c) {
            Some((Token::Number, self.scan_run(pos + 1, CharClass::Digit)))
        } else if ('a' <= c && c <= 'z') || ('A' <= c && c <= 'Z') || c == '_' {
            let end = self.scan_run(pos + 1, CharClass::Word);
            Some((self.classify_word(pos, end), end))
        } else if c == '"' {
            match self.scan_string(pos + 1) {
                Some(end) => Some((Token::StringLiteral, end)),
                None => None,
            }
        } else if c == '=' {
            if self.equals_follows(pos) {
                Some((Token::Eq, pos + 2))
            } else {
                Some((Token::Equals, pos + 1))
            }
        } else if c == '!' {
            if self.equals_follows(pos) {
                Some((Token::Ne, pos + 2))
            } else {
                None
            }
        } else if c == '<' {
            if self.equals_follows(pos) {
                Some((Token::Le, pos + 2))
            } else {
                Some((Token::Lt, pos + 1))
            }
        } else if c == '>' {
            if self.equals_follows(pos) {
                Some((Token::Ge, pos + 2))
            } else {
                Some((Token::Gt, pos + 1))
            }
        } else {
            match Self::classify_mark(c) {
                Some(token) => Some((token, pos + 1)),
                None => None,
            }
        }
    }

    /// Yields the next token, blanks skipped: the longest match at the
    /// first character that is no blank. `None` at the end of the source,
    /// an error at a character where no rule matches. After an error the
    /// tokenizer stays where it is, and every later call gives the same
    /// error.
    pub fn next_token(&mut self) -> (r: Option<Result<Token, LexError>>)
        ensures
            final(self).source() == old(self).source(),
            0 <= old(self).position() <= final(self).slice_start(),
            final(self).slice_start() <= final(self).position() <= final(self).source().len(),
            r is None ==> next_lexeme(final(self).source(), final(self).position()) is End,
            r matches Some(Err(_)) ==> {
                &&& next_lexeme(final(self).source(), final(self).position()) is Invalid
                &&& no_match(final(self).source(), final(self).position())
            },
            r matches Some(Ok(token)) ==> {
                &&& token != Token::Whitespace
                &&& is_longest_match(
                    final(self).source(),
                    final(self).slice_start(),
                    token,
                    final(self).position(),
                )
            },
            match next_lexeme(old(self).source(), old(self).position()) {
                Lexed::End => {
                    &&& r is None
                    &&& final(self).slice_start() == final(self).source().len()
                    &&& final(self).position() == final(self).source().len()
                },
                Lexed::Invalid { at } => {
                    &&& r matches Some(Err(error))
                    &&& error.position == at
                    &&& final(self).slice_start() == at
                    &&& final(self).position() == at
                },
                Lexed::Found { token, start, end } => {
                    &&& r == Some(Ok::<Token, LexError>(token))
                    &&& final(self).slice_start() == start
                    &&& final(self).position() == end
                },
            },
    {
        proof {
            use_type_invariant(&*self);
        }
        let n = self.chars.len();
        let ghost src = self.chars@;
        let ghost from = self.end as int;
        proof {
            lemma_next_lexeme(src, from);
            lemma_next_lexeme_reads_longest_match(src, from);
        }
        let mut pos = self.end;
        if pos < n && CharClass::Blank.contains(self.chars[pos]) {
            pos = self.scan_run(pos + 1, CharClass::Blank);
            proof {
                lemma_run_end_bounds(src, from + 1, CharClass::Blank);
                assert(scan(src, from) == Some((Token::Whitespace, pos as int)));
            }
        }
        assert(next_lexeme(src, from) == next_lexeme(src, pos as int));
        assert(pos < n ==> !is_blank(src[pos as int]));
        if pos >= n {
            self.end = n;
            self.start = n;
            return None;
        }
        match self.scan_at(pos) {
            Some((token, end)) => {
                self.end = end;
                self.start = pos;
                Some(Ok(token))
            },
            None => {
                self.end = pos;
                self.start = pos;
                Some(Err(LexError { position: pos }))
            },
        }
    }

    /// The text of the token yielded last.
    pub fn slice(&self) -> (r: &'a str)
        ensures
            r@ == self.slice_text(),
    {
        proof {
            use_type_invariant(self);
        }
        self.text.substring_char(self.start, self.end)
    }
}

/// Reads all the tokens of `source`, each with its text, or gives the
/// first character that starts no token.
pub fn tokenize(source: &str) -> (r: Result<Vec<(Token, String)>, LexError>)
    ensures
        match r {
            Ok(tokens) => stream_error(source@, 0) is None && lexemes_of(tokens@) == token_stream(
                source@,
                0,
            ),
            Err(error) => stream_error(source@, 0) == Some(error.position as int),
        },
{
    let mut lexer = Lexer::new(source);
    let mut tokens: Vec<(Token, String)> = Vec::new();
    assert(lexemes_of(tokens@) + token_stream(source@, 0) =~= token_stream(source@, 0));
    loop
        invariant
            lexer.source() == source@,
            0 <= lexer.position() <= source@.len(),
            token_stream(source@, 0) == lexemes_of(tokens@) + token_stream(
                source@,
                lexer.position(),
            ),
            stream_error(source@, 0) == stream_error(source@, lexer.position()),
        decreases source@.len() - lexer.position(),
    {
        let ghost before = tokens@;
        let ghost from = lexer.position();
        proof {
            lemma_next_lexeme(source@, from);
        }
        match lexer.next_token() {
            None => {
                assert(lexemes_of(tokens@) + Seq::<Lexeme>::empty() =~= lexemes_of(tokens@));
                return Ok(tokens);
            },
            Some(Err(error)) => {
                return Err(error);
            },
            Some(Ok(token)) => {
                let text = lexer.slice().to_owned();
                tokens.push((token, text));
                assert(lexemes_of(tokens@) =~= lexemes_of(before) + seq![
                    Lexeme { token, text: text@ },
                ]);
                assert(lexemes_of(tokens@) + token_stream(source@, lexer.position())
                    =~= lexemes_of(before) + token_stream(source@, from));
            },
        }
    }
}

} // verus!

//! The lexical rules, each as the set of texts that it matches, and the
//! proof that the scanner reads, at every position, the longest text that
//! any rule matches, under the rule of highest rank.

use vstd::prelude::*;
use crate::lexer::{
    is_blank, is_digit, is_word_start, lemma_run_end_bounds, lemma_scan_bounds,
    lemma_string_end_bounds, next_lexeme, run_end, scan, string_end, word_token, CharClass, Lexed,
    Token,
};

verus! {

/// The text of a token that is spelled in one way only.
pub open spec fn fixed_text(token: Token) -> Option<Seq<char>> {
    match token {
        Token::Let => Some(seq!['l', 'e', 't']),
        Token::Colon => Some(seq![':']),
        Token::Equals => Some(seq!['=']),
        Token::Plus => Some(seq!['+']),
        Token::Minus => Some(seq!['-']),
        Token::Star => Some(seq!['*']),
        Token::Slash => Some(seq!['/']),
        Token::Semicolon => Some(seq![';']),
        Token::LParen => Some(seq!['(']),
        Token::RParen => Some(seq![')']),
        Token::LBrace => Some(seq!['{']),
        Token::RBrace => Some(seq!['}']),
        Token::True => Some(seq!['t', 'r', 'u', 'e']),
        Token::False => Some(seq!['f', 'a', 'l', 's', 'e']),
        Token::If => Some(seq!['i', 'f']),
        Token::Else => Some(seq!['e', 'l', 's', 'e']),
        Token::Print => Some(seq!['p', 'r', 'i', 'n', 't']),
        Token::Eq => Some(seq!['=', '=']),
        Token::Ne => Some(seq!['!', '=']),
        Token::Lt => Some(seq!['<']),
        Token::Le => Some(seq!['<', '=']),
        Token::Gt => Some(seq!['>']),
        Token::Ge => Some(seq!['>', '=']),
        Token::NumberType => Some(seq!['n', 'u', 'm', 'b', 'e', 'r']),
        Token::StringType => Some(seq!['s', 't', 'r', 'i', 'n', 'g']),
        Token::BooleanType => Some(seq!['b', 'o', 'o', 'l', 'e', 'a', 'n']),
        Token::Comma => Some(seq![',']),
        Token::Whitespace => None,
        Token::StringLiteral => None,
        Token::Number => None,
        Token::Identifier => None,
    }
}

/// Whether every character of `text` is of `class`.
pub open spec fn all_in(text: Seq<char>, class: CharClass) -> bool {
    forall|i: int| 0 <= i < text.len() ==> class.has(#[trigger] text[i])
}

/// Whether `body` can stand between the quotes of a string literal: a
/// sequence of characters other than `"` and `\`, and of pairs of a `\`
/// and a character other than a line feed.
pub open spec fn string_body(body: Seq<char>) -> bool
    decreases body.len(),
{
    if body.len() == 0 {
        true
    } else if body[0] == '\\' {
        body.len() >= 2 && body[1] != '\n' && string_body(body.skip(2))
    } else {
        body[0] != '"' && string_body(body.skip(1))
    }
}

/// Whether the rule of `token` matches the whole of `text`.
pub open spec fn rule_matches(token: Token, text: Seq<char>) -> bool {
    match token {
        Token::Whitespace => text.len() > 0 && all_in(text, CharClass::Blank),
        Token::Number => text.len() > 0 && all_in(text, CharClass::Digit),
        Token::Identifier => text.len() > 0 && is_word_start(text[0]) && all_in(
            text,
            CharClass::Word,
        ),
        Token::StringLiteral => {
            &&& text.len() >= 2
            &&& text[0] == '"'
            &&& text.last() == '"'
            &&& string_body(text.subrange(1, text.len() - 1))
        },
        _ => fixed_text(token) == Some(text),
    }
}

/// Whether `a` wins over `b` where both match the same text: a token
/// spelled in one way only wins over a pattern.
pub open spec fn outranks(a: Token, b: Token) -> bool {
    fixed_text(a) is Some && fixed_text(b) is None
}

/// Whether `token`, read from `pos` to `end`, is the longest match at
/// `pos`: no rule matches a longer text from there, and a rule that
/// matches the same text is of lower rank.
pub open spec fn is_longest_match(src: Seq<char>, pos: int, token: Token, end: int) -> bool {
    &&& pos < end <= src.len()
    &&& rule_matches(token, src.subrange(pos, end))
    &&& forall|other: Token, n: int|
        pos <= n <= src.len() && #[trigger] rule_matches(other, src.subrange(pos, n)) ==> n < end
            || (n == end && (other == token || outranks(token, other)))
}

/// Whether no rule matches any text that starts at `pos`.
pub open spec fn no_match(src: Seq<char>, pos: int) -> bool {
    forall|other: Token, n: int|
        pos <= n <= src.len() ==> !#[trigger] rule_matches(other, src.subrange(pos, n))
}

/// Whether a text that the rule of `token` matches can start with `c`.
pub open spec fn may_start(token: Token, c: char) -> bool {
    match token {
        Token::Whitespace => is_blank(c),
        Token::Number => is_digit(c),
        Token::Identifier => is_word_start(c),
        Token::StringLiteral => c == '"',
        _ => fixed_text(token) matches Some(text) && text[0] == c,
    }
}

/// A match is not empty, and starts with a character that its rule
/// allows first.
proof fn lemma_match_starts(src: Seq<char>, pos: int, n: int, other: Token)
    requires
        0 <= pos <= n <= src.len(),
        rule_matches(other, src.subrange(pos, n)),
    ensures
        pos < n,
        may_start(other, src[pos]),
{
    let text = src.subrange(pos, n);
    assert(text.len() > 0);
    assert(text[0] == src[pos]);
}

/// A run holds every text of its class that starts where it starts.
proof fn lemma_run_covers(src: Seq<char>, pos: int, n: int, class: CharClass)
    requires
        0 <= pos <= n <= src.len(),
        all_in(src.subrange(pos, n), class),
    ensures
        n <= run_end(src, pos, class),
    decreases n - pos,
{
    lemma_run_end_bounds(src, pos, class);
    if pos < n {
        let text = src.subrange(pos, n);
        assert(class.has(text[0]));
        assert(text[0] == src[pos]);
        assert forall|i: int| 0 <= i < n - (pos + 1) implies class.has(
            #[trigger] src.subrange(pos + 1, n)[i],
        ) by {
            assert(text[i + 1] == src.subrange(pos + 1, n)[i]);
        }
        lemma_run_covers(src, pos + 1, n, class);
    }
}

/// The text of a run is all of the run's class.
proof fn lemma_run_all_in(src: Seq<char>, pos: int, class: CharClass)
    requires
        0 <= pos <= src.len(),
    ensures
        all_in(src.subrange(pos, run_end(src, pos, class)), class),
{
    lemma_run_end_bounds(src, pos, class);
}

/// Where the scanner finds the end of a string literal, the text up to
/// the closing quote is a string body.
proof fn lemma_string_end_is_body(src: Seq<char>, pos: int)
    requires
        0 <= pos,
        string_end(src, pos) is Some,
    ensures
        pos < string_end(src, pos).unwrap() <= src.len(),
        src[string_end(src, pos).unwrap() - 1] == '"',
        string_body(src.subrange(pos, string_end(src, pos).unwrap() - 1)),
    decreases src.len() - pos,
{
    lemma_string_end_bounds(src, pos);
    let end = string_end(src, pos).unwrap();
    let body = src.subrange(pos, end - 1);
    if src[pos] == '"' {
    } else if src[pos] == '\\' {
        lemma_string_end_is_body(src, pos + 2);
        assert(body.skip(2) =~= src.subrange(pos + 2, end - 1));
        assert(body[0] == src[pos]);
        assert(body[1] == src[pos + 1]);
    } else {
        lemma_string_end_is_body(src, pos + 1);
        assert(body.skip(1) =~= src.subrange(pos + 1, end - 1));
        assert(body[0] == src[pos]);
    }
}

/// A string body followed by a quote is what the scanner reads, and
/// nothing else.
proof fn lemma_body_is_string_end(src: Seq<char>, pos: int, close: int)
    requires
        0 <= pos <= close < src.len(),
        src[close] == '"',
        string_body(src.subrange(pos, close)),
    ensures
        string_end(src, pos) == Some(close + 1),
    decreases close - pos,
{
    let body = src.subrange(pos, close);
    if pos < close {
        assert(body[0] == src[pos]);
        if src[pos] == '\\' {
            assert(body[1] == src[pos + 1]);
            assert(body.skip(2) =~= src.subrange(pos + 2, close));
            lemma_body_is_string_end(src, pos + 2, close);
        } else {
            assert(body.skip(1) =~= src.subrange(pos + 1, close));
            lemma_body_is_string_end(src, pos + 1, close);
        }
    }
}

/// A reserved word is made of word characters, and is the token that the
/// scanner gives to its text; a word that the scanner gives a reserved
/// token to is that token's text.
proof fn lemma_reserved_words(token: Token, text: Seq<char>)
    ensures
        fixed_text(token) == Some(text) && is_word_start(text[0]) ==> all_in(text, CharClass::Word)
            && word_token(text) == token,
        word_token(text) == token && token != Token::Identifier ==> fixed_text(token) == Some(
            text,
        ) && is_word_start(text[0]),
        word_token(text) != Token::Whitespace,
{
    let l = seq!['l', 'e', 't'];
    let t = seq!['t', 'r', 'u', 'e'];
    let f = seq!['f', 'a', 'l', 's', 'e'];
    let i = seq!['i', 'f'];
    let e = seq!['e', 'l', 's', 'e'];
    let p = seq!['p', 'r', 'i', 'n', 't'];
    let n = seq!['n', 'u', 'm', 'b', 'e', 'r'];
    let s = seq!['s', 't', 'r', 'i', 'n', 'g'];
    let b = seq!['b', 'o', 'o', 'l', 'e', 'a', 'n'];
    assert(l[0] == 'l' && t[0] == 't' && f[0] == 'f' && i[0] == 'i' && e[0] == 'e' && p[0] == 'p'
        && n[0] == 'n' && s[0] == 's' && b[0] == 'b');
    assert(all_in(l, CharClass::Word));
    assert(all_in(t, CharClass::Word));
    assert(all_in(f, CharClass::Word));
    assert(all_in(i, CharClass::Word));
    assert(all_in(e, CharClass::Word));
    assert(all_in(p, CharClass::Word));
    assert(all_in(n, CharClass::Word));
    assert(all_in(s, CharClass::Word));
    assert(all_in(b, CharClass::Word));
}

/// A run of blanks or of digits is the longest match where it starts.
proof fn lemma_run_is_longest(src: Seq<char>, pos: int, class: CharClass, token: Token)
    requires
        0 <= pos < src.len(),
        class.has(src[pos]),
        (class == CharClass::Blank && token == Token::Whitespace) || (class == CharClass::Digit
            && token == Token::Number),
    ensures
        is_longest_match(src, pos, token, run_end(src, pos + 1, class)),
{
    let end = run_end(src, pos + 1, class);
    lemma_run_end_bounds(src, pos + 1, class);
    lemma_run_all_in(src, pos, class);
    assert(run_end(src, pos, class) == end);
    assert forall|other: Token, n: int|
        pos <= n <= src.len() && #[trigger] rule_matches(other, src.subrange(pos, n)) implies n
        < end || (n == end && (other == token || outranks(token, other))) by {
        lemma_match_starts(src, pos, n, other);
        assert(other == token);
        lemma_run_covers(src, pos, n, class);
    }
}

/// A word is the longest match where it starts, as the reserved word
/// that it spells or else as an identifier.
proof fn lemma_word_is_longest(src: Seq<char>, pos: int)
    requires
        0 <= pos < src.len(),
        is_word_start(src[pos]),
    ensures
        is_longest_match(
            src,
            pos,
            word_token(src.subrange(pos, run_end(src, pos + 1, CharClass::Word))),
            run_end(src, pos + 1, CharClass::Word),
        ),
{
    let end = run_end(src, pos + 1, CharClass::Word);
    let text = src.subrange(pos, end);
    let token = word_token(text);
    lemma_run_end_bounds(src, pos + 1, CharClass::Word);
    lemma_run_all_in(src, pos, CharClass::Word);
    assert(run_end(src, pos, CharClass::Word) == end);
    lemma_reserved_words(token, text);
    assert(text[0] == src[pos]);
    assert(rule_matches(token, text));
    assert forall|other: Token, n: int|
        pos <= n <= src.len() && #[trigger] rule_matches(other, src.subrange(pos, n)) implies n
        < end || (n == end && (other == token || outranks(token, other))) by {
        lemma_match_starts(src, pos, n, other);
        let found = src.subrange(pos, n);
        assert(found[0] == src[pos]);
        if other != Token::Identifier {
            lemma_reserved_words(other, found);
        }
        lemma_run_covers(src, pos, n, CharClass::Word);
    }
}

/// A string literal that closes is the longest match at its opening
/// quote, and nothing matches at a quote whose literal does not close.
proof fn lemma_string_is_longest(src: Seq<char>, pos: int)
    requires
        0 <= pos < src.len(),
        src[pos] == '"',
    ensures
        match string_end(src, pos + 1) {
            Some(end) => is_longest_match(src, pos, Token::StringLiteral, end),
            None => no_match(src, pos),
        },
{
    if let Some(end) = string_end(src, pos + 1) {
        lemma_string_end_is_body(src, pos + 1);
        let text = src.subrange(pos, end);
        assert(text.subrange(1, text.len() - 1) =~= src.subrange(pos + 1, end - 1));
        assert(text[0] == src[pos]);
        assert(text.last() == src[end - 1]);
    }
    assert forall|other: Token, n: int|
        pos <= n <= src.len() && #[trigger] rule_matches(
            other,
            src.subrange(pos, n),
        ) implies other == Token::StringLiteral && string_end(src, pos + 1) == Some(n) by {
        lemma_match_starts(src, pos, n, other);
        assert(other == Token::StringLiteral);
        let found = src.subrange(pos, n);
        assert(found.subrange(1, found.len() - 1) =~= src.subrange(pos + 1, n - 1));
        assert(found.last() == src[n - 1]);
        lemma_body_is_string_end(src, pos + 1, n - 1);
    }
}

/// At a character that starts no word, number, blank or string, the
/// scanner reads the longest operator or mark, or nothing matches.
proof fn lemma_mark_is_longest(src: Seq<char>, pos: int)
    requires
        0 <= pos < src.len(),
        !is_blank(src[pos]),
        !is_digit(src[pos]),
        !is_word_start(src[pos]),
        src[pos] != '"',
    ensures
        match scan(src, pos) {
            Some((token, end)) => is_longest_match(src, pos, token, end),
            None => no_match(src, pos),
        },
{
    if let Some((token, end)) = scan(src, pos) {
        let text = fixed_text(token).unwrap();
        assert(text.len() == end - pos);
        assert(text[0] == src[pos]);
        assert(end == pos + 2 ==> text[1] == src[pos + 1]);
        assert(src.subrange(pos, end) =~= text);
    }
    assert forall|other: Token, n: int|
        pos <= n <= src.len() && #[trigger] rule_matches(
            other,
            src.subrange(pos, n),
        ) implies scan(src, pos) matches Some((token, end)) && (n < end || (n == end && other
        == token)) by {
        lemma_match_starts(src, pos, n, other);
        let found = src.subrange(pos, n);
        assert(found[0] == src[pos]);
        assert(found.len() == n - pos);
        if n >= pos + 2 {
            assert(found[1] == src[pos + 1]);
        }
    }
}

/// The scanner reads the longest match: the token that it reads at a
/// position matches its text, no rule matches a longer text from there,
/// and among the rules that match the same text it is the one of highest
/// rank. Where it reads no token, no rule matches there at all.
pub proof fn lemma_scan_reads_longest_match(src: Seq<char>, pos: int)
    requires
        0 <= pos < src.len(),
    ensures
        match scan(src, pos) {
            Some((token, end)) => is_longest_match(src, pos, token, end),
            None => no_match(src, pos),
        },
{
    let c = src[pos];
    if is_blank(c) {
        lemma_run_is_longest(src, pos, CharClass::Blank, Token::Whitespace);
    } else if is_digit(c) {
        lemma_run_is_longest(src, pos, CharClass::Digit, Token::Number);
    } else if is_word_start(c) {
        lemma_word_is_longest(src, pos);
    } else if c == '"' {
        lemma_string_is_longest(src, pos);
    } else {
        lemma_mark_is_longest(src, pos);
    }
}

/// There is one longest match at most.
pub proof fn lemma_longest_match_is_unique(
    src: Seq<char>,
    pos: int,
    first: Token,
    first_end: int,
    second: Token,
    second_end: int,
)
    requires
        is_longest_match(src, pos, first, first_end),
        is_longest_match(src, pos, second, second_end),
    ensures
        first == second,
        first_end == second_end,
{
}

/// What the tokenizer finds from `pos` on is the longest match at the
/// first character that is no blank: a token that is no blank itself, or
/// an error where no rule matches; and it finds the end of the source
/// where only blanks are left.
pub proof fn lemma_next_lexeme_reads_longest_match(src: Seq<char>, pos: int)
    requires
        0 <= pos <= src.len(),
    ensures
        match next_lexeme(src, pos) {
            Lexed::Found { token, start, end } => {
                &&& pos <= start < src.len()
                &&& all_in(src.subrange(pos, start), CharClass::Blank)
                &&& !is_blank(src[start])
                &&& token != Token::Whitespace
                &&& is_longest_match(src, start, token, end)
            },
            Lexed::Invalid { at } => {
                &&& pos <= at < src.len()
                &&& all_in(src.subrange(pos, at), CharClass::Blank)
                &&& !is_blank(src[at])
                &&& no_match(src, at)
            },
            Lexed::End => all_in(src.subrange(pos, src.len() as int), CharClass::Blank),
        },
    decreases src.len() - pos,
{
    if pos < src.len() {
        lemma_scan_bounds(src, pos);
        lemma_scan_reads_longest_match(src, pos);
        lemma_reserved_words(
            Token::Whitespace,
            src.subrange(pos, run_end(src, pos + 1, CharClass::Word)),
        );
        if is_blank(src[pos]) {
            let next = run_end(src, pos + 1, CharClass::Blank);
            lemma_run_end_bounds(src, pos + 1, CharClass::Blank);
            lemma_next_lexeme_reads_longest_match(src, next);
            let stop = match next_lexeme(src, pos) {
                Lexed::Found { token, start, end } => start,
                Lexed::Invalid { at } => at,
                Lexed::End => src.len() as int,
            };
            assert forall|i: int| 0 <= i < stop - pos implies is_blank(
                #[trigger] src.subrange(pos, stop)[i],
            ) by {
                if pos + i >= next {
                    assert(src.subrange(next, stop)[pos + i - next] == src[pos + i]);
                }
            }
        }
    }
}

} // verus!

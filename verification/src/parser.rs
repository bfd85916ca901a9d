//! The parser: recursive descent over the token stream with one token of
//! lookahead and no backtracking. The four operators share one level of
//! precedence and associate to the left.

use vstd::prelude::*;
use vstd::string::StrSliceExecFns;
use crate::arith::BinOp;
use crate::ast::{tree_of, trees_of, Ast, Expr};
use crate::lexer::{
    lemma_next_lexeme, next_lexeme, stream_error, token_stream, Lexed, Lexeme, Lexer, Token,
};
use crate::literal::{number_value, parse_number, unquote};

verus! {

/// What parsing one construct gives: its value, or `None` where the
/// tokens do not spell it, and the tokens that are left.
pub struct Parsed<T> {
    pub value: Option<T>,
    pub rest: Seq<Lexeme>,
}

/// Whether `ts` starts with a token of kind `token`.
pub open spec fn starts_with(ts: Seq<Lexeme>, token: Token) -> bool {
    ts.len() > 0 && ts[0].token == token
}

/// The operator that a token spells.
pub open spec fn operator_of(token: Token) -> Option<BinOp> {
    match token {
        Token::Plus => Some(BinOp::Add),
        Token::Minus => Some(BinOp::Sub),
        Token::Star => Some(BinOp::Mul),
        Token::Slash => Some(BinOp::Div),
        _ => None,
    }
}

/// The term that one lexeme spells: a number that fits in 64 bits, a
/// variable, or a string without its quotes.
pub open spec fn term_of(lexeme: Lexeme) -> Option<Ast> {
    match lexeme.token {
        Token::Number => match number_value(lexeme.text) {
            Some(value) => Some(Ast::Number(value)),
            None => None,
        },
        Token::Identifier => Some(Ast::Var(lexeme.text)),
        Token::StringLiteral => Some(Ast::Text(unquote(lexeme.text))),
        _ => None,
    }
}

/// `term := NUMBER | IDENT | STRING`. A failure takes no token.
pub open spec fn parse_term(ts: Seq<Lexeme>) -> Parsed<Ast> {
    if ts.len() > 0 && term_of(ts[0]) is Some {
        Parsed { value: term_of(ts[0]), rest: ts.skip(1) }
    } else {
        Parsed { value: None, rest: ts }
    }
}

/// The rest of an expression whose operands so far make `left`:
/// `(("+" | "-" | "*" | "/") term)*`.
pub open spec fn parse_operations(left: Ast, ts: Seq<Lexeme>) -> Parsed<Ast>
    decreases ts.len(),
{
    if ts.len() > 0 && operator_of(ts[0].token) is Some {
        let right = parse_term(ts.skip(1));
        match right.value {
            Some(operand) => parse_operations(
                Ast::BinOp(Box::new(left), operator_of(ts[0].token).unwrap(), Box::new(operand)),
                right.rest,
            ),
            None => Parsed { value: None, rest: right.rest },
        }
    } else {
        Parsed { value: Some(left), rest: ts }
    }
}

/// `expr := term (("+" | "-" | "*" | "/") term)*`
pub open spec fn parse_expr(ts: Seq<Lexeme>) -> Parsed<Ast> {
    let first = parse_term(ts);
    match first.value {
        Some(left) => parse_operations(left, first.rest),
        None => Parsed { value: None, rest: first.rest },
    }
}

/// `let_stmt := "let" IDENT "=" expr ";"`, on tokens that start with `let`.
pub open spec fn parse_let(ts: Seq<Lexeme>) -> Parsed<Ast> {
    let after_let = ts.skip(1);
    if !starts_with(after_let, Token::Identifier) {
        Parsed { value: None, rest: after_let }
    } else if !starts_with(after_let.skip(1), Token::Equals) {
        Parsed { value: None, rest: after_let.skip(1) }
    } else {
        let value = parse_expr(after_let.skip(1).skip(1));
        match value.value {
            Some(tree) if starts_with(value.rest, Token::Semicolon) => Parsed {
                value: Some(Ast::Assign(after_let[0].text, Box::new(tree))),
                rest: value.rest.skip(1),
            },
            _ => Parsed { value: None, rest: value.rest },
        }
    }
}

/// `print_stmt := "print" "(" expr ")" ";"`, on tokens that start with
/// `print`.
pub open spec fn parse_print(ts: Seq<Lexeme>) -> Parsed<Ast> {
    let after_print = ts.skip(1);
    if !starts_with(after_print, Token::LParen) {
        Parsed { value: None, rest: after_print }
    } else {
        let inner = parse_expr(after_print.skip(1));
        match inner.value {
            Some(tree) if starts_with(inner.rest, Token::RParen) => if starts_with(
                inner.rest.skip(1),
                Token::Semicolon,
            ) {
                Parsed { value: Some(Ast::Print(Box::new(tree))), rest: inner.rest.skip(1).skip(1) }
            } else {
                Parsed { value: None, rest: inner.rest.skip(1) }
            },
            _ => Parsed { value: None, rest: inner.rest },
        }
    }
}

/// The rest of an argument list that holds `args` so far: `("," term)*`.
pub open spec fn parse_more_arguments(args: Seq<Ast>, ts: Seq<Lexeme>) -> Parsed<Seq<Ast>>
    decreases ts.len(),
{
    if starts_with(ts, Token::Comma) {
        let next = parse_term(ts.skip(1));
        match next.value {
            Some(arg) => parse_more_arguments(args.push(arg), next.rest),
            None => Parsed { value: None, rest: next.rest },
        }
    } else {
        Parsed { value: Some(args), rest: ts }
    }
}

/// `(term ("," term)*)?`
pub open spec fn parse_arguments(ts: Seq<Lexeme>) -> Parsed<Seq<Ast>> {
    let first = parse_term(ts);
    match first.value {
        Some(arg) => parse_more_arguments(seq![arg], first.rest),
        None => Parsed { value: Some(Seq::empty()), rest: ts },
    }
}

/// A statement that starts with an identifier. Before `(` the identifier
/// names a function: `call_expr := IDENT "(" (term ("," term)*)? ")"`,
/// and a call that does not close is an error. Before anything else it
/// is the first term of an expression.
pub open spec fn parse_call(ts: Seq<Lexeme>) -> Parsed<Ast> {
    let name = ts[0].text;
    let after_name = ts.skip(1);
    if !starts_with(after_name, Token::LParen) {
        parse_operations(Ast::Var(name), after_name)
    } else {
        let args = parse_arguments(after_name.skip(1));
        match args.value {
            Some(trees) if starts_with(args.rest, Token::RParen) => Parsed {
                value: Some(Ast::Call(name, trees)),
                rest: args.rest.skip(1),
            },
            _ => Parsed { value: None, rest: args.rest },
        }
    }
}

/// Whether a statement can start with a token of this kind.
pub open spec fn starts_statement(token: Token) -> bool {
    token == Token::Let || token == Token::Print || token == Token::Identifier || token
        == Token::StringLiteral || token == Token::Number
}

/// `statement := let_stmt | print_stmt | call_or_expr`, on tokens whose
/// first can start a statement. A string literal in that place is a
/// statement by itself.
pub open spec fn parse_statement(ts: Seq<Lexeme>) -> Parsed<Ast> {
    match ts[0].token {
        Token::Let => parse_let(ts),
        Token::Print => parse_print(ts),
        Token::Identifier => parse_call(ts),
        Token::StringLiteral => Parsed {
            value: Some(Ast::Text(unquote(ts[0].text))),
            rest: ts.skip(1),
        },
        _ => parse_expr(ts),
    }
}

/// `statement*`: stops with what it has at a token that starts no
/// statement, fails at a statement that is not complete, and fails at the
/// end of the tokens where that end is an error of the tokenizer
/// (`clean` is false).
pub open spec fn parse_statements(ts: Seq<Lexeme>, clean: bool) -> Parsed<Seq<Ast>>
    decreases ts.len(),
{
    if ts.len() == 0 {
        Parsed {
            value: if clean {
                Some(Seq::empty())
            } else {
                None
            },
            rest: ts,
        }
    } else if !starts_statement(ts[0].token) {
        Parsed { value: Some(Seq::empty()), rest: ts }
    } else {
        let first = parse_statement(ts);
        match first.value {
            Some(tree) if first.rest.len() < ts.len() => {
                let more = parse_statements(first.rest, clean);
                Parsed {
                    value: match more.value {
                        Some(trees) => Some(seq![tree] + trees),
                        None => None,
                    },
                    rest: more.rest,
                }
            },
            _ => Parsed { value: None, rest: first.rest },
        }
    }
}

/// `program := statement*`, with at least one statement.
pub open spec fn parse_program(ts: Seq<Lexeme>, clean: bool) -> Parsed<Seq<Ast>> {
    let all = parse_statements(ts, clean);
    match all.value {
        Some(trees) if trees.len() > 0 => all,
        _ => Parsed { value: None, rest: all.rest },
    }
}

/// The program that the source text `src` spells, if it spells one.
pub open spec fn parse_text(src: Seq<char>) -> Option<Seq<Ast>> {
    parse_program(token_stream(src, 0), stream_error(src, 0) is None).value
}

/// Parsing takes tokens from the front: what is left is no longer than
/// what there was.
pub proof fn lemma_operations_rest(left: Ast, ts: Seq<Lexeme>)
    ensures
        parse_operations(left, ts).rest.len() <= ts.len(),
    decreases ts.len(),
{
    if ts.len() > 0 && operator_of(ts[0].token) is Some {
        let right = parse_term(ts.skip(1));
        if let Some(operand) = right.value {
            lemma_operations_rest(
                Ast::BinOp(Box::new(left), operator_of(ts[0].token).unwrap(), Box::new(operand)),
                right.rest,
            );
        }
    }
}

/// An argument list takes tokens from the front.
pub proof fn lemma_arguments_rest(args: Seq<Ast>, ts: Seq<Lexeme>)
    ensures
        parse_more_arguments(args, ts).rest.len() <= ts.len(),
    decreases ts.len(),
{
    if starts_with(ts, Token::Comma) {
        let next = parse_term(ts.skip(1));
        if let Some(arg) = next.value {
            lemma_arguments_rest(args.push(arg), next.rest);
        }
    }
}

/// A statement that parses takes at least one token.
pub proof fn lemma_statement_rest(ts: Seq<Lexeme>)
    requires
        ts.len() > 0,
        starts_statement(ts[0].token),
    ensures
        parse_statement(ts).value is Some ==> parse_statement(ts).rest.len() < ts.len(),
{
    let t1 = ts.skip(1);
    match ts[0].token {
        Token::Let => {
            if starts_with(t1, Token::Identifier) && starts_with(t1.skip(1), Token::Equals) {
                let t3 = t1.skip(1).skip(1);
                let first = parse_term(t3);
                if let Some(left) = first.value {
                    lemma_operations_rest(left, first.rest);
                }
            }
        },
        Token::Print => {
            if starts_with(t1, Token::LParen) {
                let first = parse_term(t1.skip(1));
                if let Some(left) = first.value {
                    lemma_operations_rest(left, first.rest);
                }
            }
        },
        Token::Identifier => {
            if starts_with(t1, Token::LParen) {
                let first = parse_term(t1.skip(1));
                if let Some(arg) = first.value {
                    lemma_arguments_rest(seq![arg], first.rest);
                }
            } else {
                lemma_operations_rest(Ast::Var(ts[0].text), t1);
            }
        },
        Token::StringLiteral => {},
        _ => {
            let first = parse_term(ts);
            if let Some(left) = first.value {
                lemma_operations_rest(left, first.rest);
            }
        },
    }
}

/// A parser over the tokens of one tokenizer. It holds one token of
/// lookahead; the tokenizer's current slice is that token's text.
pub struct Parser<'a> {
    lexer: Lexer<'a>,
    current_token: Option<Token>,
    failed: bool,
}

impl<'a> Parser<'a> {
    /// Whether the lookahead and the tokenizer agree: an empty lookahead
    /// means that the tokenizer has nothing more to yield.
    pub closed spec fn wf(&self) -> bool {
        &&& 0 <= self.lexer.position() <= self.lexer.source().len()
        &&& self.current_token is Some ==> !self.failed
        &&& self.current_token is None ==> match next_lexeme(
            self.lexer.source(),
            self.lexer.position(),
        ) {
            Lexed::End => !self.failed,
            Lexed::Invalid { at } => self.failed,
            Lexed::Found { token, start, end } => false,
        }
    }

    /// The tokens not yet taken, the lookahead first.
    pub closed spec fn stream(&self) -> Seq<Lexeme> {
        match self.current_token {
            Some(token) => seq![Lexeme { token, text: self.lexer.slice_text() }] + token_stream(
                self.lexer.source(),
                self.lexer.position(),
            ),
            None => Seq::empty(),
        }
    }

    /// Whether the tokens reach the end of the source: false where they
    /// stop at a character that starts no token.
    pub closed spec fn clean(&self) -> bool {
        stream_error(self.lexer.source(), self.lexer.position()) is None
    }

    /// Whether the parser went from `before` to `after` and returned `r`
    /// as `expected` says.
    spec fn parsed(before: &Self, after: &Self, r: Option<Expr>, expected: Parsed<Ast>) -> bool {
        &&& after.wf()
        &&& after.stream() == expected.rest
        &&& after.clean() == before.clean()
        &&& match expected.value {
            Some(tree) => r matches Some(node) && node@ == tree,
            None => r is None,
        }
    }

    /// A parser on the tokens that `lexer` has not yet yielded.
    pub fn new(lexer: Lexer<'a>) -> (r: Self)
        ensures
            r.wf(),
            r.stream() == token_stream(lexer.source(), lexer.position()),
            r.clean() == (stream_error(lexer.source(), lexer.position()) is None),
    {
        let mut lexer = lexer;
        match lexer.next_token() {
            Some(Ok(token)) => Parser { lexer, current_token: Some(token), failed: false },
            Some(Err(_)) => Parser { lexer, current_token: None, failed: true },
            None => Parser { lexer, current_token: None, failed: false },
        }
    }

    /// Takes the lookahead and reads the next token into its place.
    fn advance(&mut self)
        requires
            old(self).wf(),
        ensures
            final(self).wf(),
            old(self).stream().len() > 0 ==> final(self).stream() == old(self).stream().skip(1),
            old(self).stream().len() == 0 ==> final(self).stream().len() == 0,
            final(self).clean() == old(self).clean(),
    {
        proof {
            lemma_next_lexeme(self.lexer.source(), self.lexer.position());
        }
        let ghost before = self.stream();
        match self.lexer.next_token() {
            Some(Ok(token)) => {
                self.failed = false;
                self.current_token = Some(token);
            },
            Some(Err(_)) => {
                self.failed = true;
                self.current_token = None;
            },
            None => {
                self.failed = false;
                self.current_token = None;
            },
        }
        assert(before.len() > 0 ==> self.stream() =~= before.skip(1));
    }

    /// Whether the lookahead is a token of kind `token`.
    fn at(&self, token: Token) -> (r: bool)
        ensures
            r == starts_with(self.stream(), token),
    {
        match self.current_token {
            Some(current) => current == token,
            None => false,
        }
    }

    /// Parses a program: statements up to a token that starts none.
    /// `None` where a statement is not complete, where the tokenizer met
    /// an error in place of a statement, or where there is no statement
    /// at all.
    pub fn parse(&mut self) -> (r: Option<Vec<Expr>>)
        requires
            old(self).wf(),
        ensures
            final(self).wf(),
            final(self).stream() == parse_program(old(self).stream(), old(self).clean()).rest,
            final(self).clean() == old(self).clean(),
            match parse_program(old(self).stream(), old(self).clean()).value {
                Some(trees) => r matches Some(nodes) && trees_of(nodes@) == trees,
                None => r is None,
            },
    {
        let ghost start = self.stream();
        let ghost clean = self.clean();
        let mut nodes: Vec<Expr> = Vec::new();
        assert(trees_of(nodes@) =~= Seq::<Ast>::empty());
        loop
            invariant
                self.wf(),
                start == old(self).stream(),
                clean == old(self).clean(),
                self.clean() == clean,
                parse_statements(start, clean).rest == parse_statements(self.stream(), clean).rest,
                parse_statements(start, clean).value == match parse_statements(
                    self.stream(),
                    clean,
                ).value {
                    Some(trees) => Some(trees_of(nodes@) + trees),
                    None => None,
                },
            decreases self.stream().len(),
        {
            let ghost ts = self.stream();
            let ghost done = trees_of(nodes@);
            let starts = match self.current_token {
                Some(Token::Let) | Some(Token::Print) | Some(Token::Identifier) | Some(
                    Token::StringLiteral,
                ) | Some(Token::Number) => true,
                _ => false,
            };
            if !starts {
                if self.failed {
                    return None;
                }
                assert(done + Seq::<Ast>::empty() =~= done);
                if nodes.len() == 0 {
                    return None;
                }
                return Some(nodes);
            }
            proof {
                lemma_statement_rest(ts);
            }
            match self.parse_stmt() {
                Some(node) => {
                    nodes.push(node);
                    assert(trees_of(nodes@) =~= done.push(node@));
                    assert forall|trees: Seq<Ast>|
                        done + (seq![node@] + trees) == #[trigger] (trees_of(nodes@) + trees) by {
                        assert(done + (seq![node@] + trees) =~= trees_of(nodes@) + trees);
                    }
                },
                None => {
                    return None;
                },
            }
        }
    }

    /// Parses one statement, chosen by the lookahead.
    fn parse_stmt(&mut self) -> (r: Option<Expr>)
        requires
            old(self).wf(),
            old(self).stream().len() > 0,
            starts_statement(old(self).stream()[0].token),
        ensures
            Self::parsed(old(self), final(self), r, parse_statement(old(self).stream())),
    {
        match self.current_token {
            Some(Token::Let) => self.parse_let(),
            Some(Token::Print) => self.parse_print(),
            Some(Token::Identifier) => self.call_expr(),
            Some(Token::StringLiteral) => {
                let text = self.string_text();
                self.advance();
                Some(Expr::String(text))
            },
            _ => self.expr(),
        }
    }

    /// The text of the string literal in the lookahead, without its quotes.
    fn string_text(&self) -> (r: String)
        requires
            self.stream().len() > 0,
        ensures
            r@ == unquote(self.stream()[0].text),
    {
        let text = self.lexer.slice();
        let n = text.unicode_len();
        if n >= 2 {
            text.substring_char(1, n - 1).to_owned()
        } else {
            text.to_owned()
        }
    }

    /// Parses `"let" IDENT "=" expr ";"`.
    fn parse_let(&mut self) -> (r: Option<Expr>)
        requires
            old(self).wf(),
            old(self).stream().len() > 0,
        ensures
            Self::parsed(old(self), final(self), r, parse_let(old(self).stream())),
    {
        self.advance();
        if !self.at(Token::Identifier) {
            return None;
        }
        let name = self.lexer.slice().to_owned();
        self.advance();
        if !self.at(Token::Equals) {
            return None;
        }
        self.advance();
        let value = self.expr()?;
        if !self.at(Token::Semicolon) {
            return None;
        }
        self.advance();
        Some(Expr::Assign(name, Box::new(value)))
    }

    /// Parses `"print" "(" expr ")" ";"`.
    fn parse_print(&mut self) -> (r: Option<Expr>)
        requires
            old(self).wf(),
            old(self).stream().len() > 0,
        ensures
            Self::parsed(old(self), final(self), r, parse_print(old(self).stream())),
    {
        self.advance();
        if !self.at(Token::LParen) {
            return None;
        }
        self.advance();
        let expr = self.expr()?;
        if !self.at(Token::RParen) {
            return None;
        }
        self.advance();
        if !self.at(Token::Semicolon) {
            return None;
        }
        self.advance();
        Some(Expr::Print(Box::new(expr)))
    }

    /// Parses a statement that starts with an identifier: a call where
    /// `(` follows, an expression otherwise.
    fn call_expr(&mut self) -> (r: Option<Expr>)
        requires
            old(self).wf(),
            old(self).stream().len() > 0,
        ensures
            Self::parsed(old(self), final(self), r, parse_call(old(self).stream())),
    {
        let ghost start = self.stream();
        let ghost clean = self.clean();
        let func_name = self.lexer.slice().to_owned();
        self.advance();
        if !self.at(Token::LParen) {
            return self.operations(Expr::Var(func_name));
        }
        self.advance();
        let ghost inside = self.stream();
        let mut args: Vec<Expr> = Vec::new();
        match self.term() {
            Some(first) => {
                args.push(first);
                assert(trees_of(args@) =~= seq![first@]);
                loop
                    invariant
                        self.wf(),
                        start == old(self).stream(),
                        clean == old(self).clean(),
                        inside == start.skip(1).skip(1),
                        starts_with(start.skip(1), Token::LParen),
                        start.len() > 0,
                        func_name@ == start[0].text,
                        self.clean() == clean,
                        parse_more_arguments(trees_of(args@), self.stream()) == parse_arguments(
                            inside,
                        ),
                    ensures
                        !starts_with(self.stream(), Token::Comma),
                    decreases self.stream().len(),
                {
                    if !self.at(Token::Comma) {
                        break ;
                    }
                    self.advance();
                    let ghost before = trees_of(args@);
                    match self.term() {
                        Some(arg) => {
                            args.push(arg);
                            assert(trees_of(args@) =~= before.push(arg@));
                        },
                        None => {
                            return None;
                        },
                    }
                }
            },
            None => {
                assert(trees_of(args@) =~= Seq::<Ast>::empty());
            },
        }
        if !self.at(Token::RParen) {
            return None;
        }
        self.advance();
        Some(Expr::Call(func_name, args))
    }

    /// Parses `term (("+" | "-" | "*" | "/") term)*`.
    fn expr(&mut self) -> (r: Option<Expr>)
        requires
            old(self).wf(),
        ensures
            Self::parsed(old(self), final(self), r, parse_expr(old(self).stream())),
    {
        let left = self.term()?;
        self.operations(left)
    }

    /// Parses `(("+" | "-" | "*" | "/") term)*` after the operand `left`.
    fn operations(&mut self, left: Expr) -> (r: Option<Expr>)
        requires
            old(self).wf(),
        ensures
            Self::parsed(
                old(self),
                final(self),
                r,
                parse_operations(left@, old(self).stream()),
            ),
    {
        let mut tree = left;
        loop
            invariant
                self.wf(),
                self.clean() == old(self).clean(),
                parse_operations(tree@, self.stream()) == parse_operations(
                    left@,
                    old(self).stream(),
                ),
            decreases self.stream().len(),
        {
            let op = match self.current_token {
                Some(Token::Plus) => BinOp::Add,
                Some(Token::Minus) => BinOp::Sub,
                Some(Token::Star) => BinOp::Mul,
                Some(Token::Slash) => BinOp::Div,
                _ => {
                    return Some(tree);
                },
            };
            self.advance();
            let right = self.term()?;
            tree = Expr::BinOp(Box::new(tree), op, Box::new(right));
        }
    }

    /// Parses `NUMBER | IDENT | STRING`.
    fn term(&mut self) -> (r: Option<Expr>)
        requires
            old(self).wf(),
        ensures
            Self::parsed(old(self), final(self), r, parse_term(old(self).stream())),
    {
        match self.current_token {
            Some(Token::Number) => {
                let value = parse_number(self.lexer.slice())?;
                self.advance();
                Some(Expr::Number(value))
            },
            Some(Token::Identifier) => {
                let name = self.lexer.slice().to_owned();
                self.advance();
                Some(Expr::Var(name))
            },
            Some(Token::StringLiteral) => {
                let text = self.string_text();
                self.advance();
                Some(Expr::String(text))
            },
            _ => None,
        }
    }
}

/// Parses the program that `source` spells.
pub fn parse_source(source: &str) -> (r: Option<Vec<Expr>>)
    ensures
        match parse_text(source@) {
            Some(trees) => r matches Some(nodes) && trees_of(nodes@) == trees,
            None => r is None,
        },
{
    let mut parser = Parser::new(Lexer::new(source));
    parser.parse()
}

/// Parsing is a function of the text: two sources that hold the same
/// characters spell the same program, or both spell none.
pub proof fn lemma_same_text_same_program(a: &str, b: &str)
    requires
        a@ == b@,
    ensures
        parse_text(a@) == parse_text(b@),
{
}

} // verus!

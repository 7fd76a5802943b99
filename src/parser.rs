//! The parser: tokens to a syntax tree, by recursive descent with precedence
//! climbing for binary operators.
//!
//! The spec functions `ps_*` state the grammar over token views; each parse
//! method is proved to return what its spec function gives. A spec function
//! that continues after a nested parse first checks that the nested parse
//! moved forward and stayed in the input; the methods prove that it always
//! does, so that branch, which keeps the definitions total, never applies.
use vstd::prelude::*;

use crate::ast::{node_views, AstNode, AstView};
use crate::object::names_view;
use crate::token::{Token, TokenView};

verus! {

/// What the parser looked for where it found something else.
#[derive(Debug, Clone, Copy, PartialEq, Eq)]
pub enum Expected {
    LeftParenAfterFor,
    SemicolonAfterForCondition,
    RightParenInFor,
    FunctionName,
    LeftParenAfterFunctionName,
    ParameterName,
    CommaOrRightParenInParameters,
    RightParenAfterParameters,
    IdentifierAfterLet,
    AssignAfterIdentifier,
    RightBrace,
    RightBracket,
    CommaOrRightParenInArguments,
    RightParenAfterArguments,
    CommaOrRightBracketInArray,
    RightParen,
}

/// A syntax error; the first one ends the parse.
#[derive(Debug, PartialEq)]
pub enum ParseError {
    Expected(Expected),
    UnexpectedToken(Token),
    UnexpectedEnd,
}

/// Binding strength of a token used as a binary or postfix operator; 0 for a
/// token that is neither.
pub open spec fn infix_precedence(t: TokenView) -> nat {
    match t {
        TokenView::Or => 1,
        TokenView::And => 2,
        TokenView::Equal | TokenView::NotEqual | TokenView::LessThan | TokenView::GreaterThan
        | TokenView::LessThanOrEqual | TokenView::GreaterThanOrEqual => 3,
        TokenView::Plus | TokenView::Minus => 4,
        TokenView::Multiply | TokenView::Divide | TokenView::Modulo => 5,
        TokenView::LeftBracket => 7,
        _ => 0,
    }
}

/// Binding strength of prefix `-` and `!`.
pub const PREFIX_PRECEDENCE: u8 = 6;

/// The mathematical content of a parse error.
pub enum ParseErrorView {
    Expected(Expected),
    UnexpectedToken(TokenView),
    UnexpectedEnd,
}

impl ParseError {
    pub open spec fn view(&self) -> ParseErrorView {
        match self {
            ParseError::Expected(e) => ParseErrorView::Expected(*e),
            ParseError::UnexpectedToken(t) => ParseErrorView::UnexpectedToken(t@),
            ParseError::UnexpectedEnd => ParseErrorView::UnexpectedEnd,
        }
    }
}

/// A parse of a node from a token index: the node and the index after it.
pub type Parsed = Result<(AstView, int), ParseErrorView>;

pub open spec fn expected(e: Expected) -> Parsed {
    Err(ParseErrorView::Expected(e))
}

/// The token at index `p`, or `None` at the end of the input or at `Eof`.
pub open spec fn tok(t: Seq<TokenView>, p: int) -> Option<TokenView> {
    if 0 <= p < t.len() && !(t[p] is Eof) {
        Some(t[p])
    } else {
        None
    }
}

/// The index after an optional `;` at `p`.
pub open spec fn skip_semi(t: Seq<TokenView>, p: int) -> int {
    if tok(t, p) == Some(TokenView::Semicolon) {
        p + 1
    } else {
        p
    }
}

/// Whether the token at `p` closes a list: `]` for an array, `)` for arguments.
pub open spec fn closes(t: Seq<TokenView>, p: int, in_array: bool) -> bool {
    if in_array {
        tok(t, p) == Some(TokenView::RightBracket)
    } else {
        tok(t, p) == Some(TokenView::RightParen)
    }
}

/// A statement at `p`, chosen by its first token.
pub open spec fn ps_statement(t: Seq<TokenView>, p: int) -> Parsed
    decreases t.len() + 4 - p, 3nat,
{
    if p < 0 || p > t.len() {
        Err(ParseErrorView::UnexpectedEnd)
    } else {
    match tok(t, p) {
        Some(TokenView::Let) => ps_let(t, p),
        Some(TokenView::If) => ps_if(t, p),
        Some(TokenView::While) => ps_while(t, p),
        Some(TokenView::For) => ps_for(t, p),
        Some(TokenView::Fn) => ps_function(t, p),
        Some(TokenView::Return) => ps_return(t, p),
        Some(TokenView::Break) => Ok((AstView::Break, skip_semi(t, p + 1))),
        Some(TokenView::Continue) => Ok((AstView::Continue, skip_semi(t, p + 1))),
        Some(TokenView::LeftBrace) => ps_block_items(t, p + 1, seq![]),
        _ => ps_expression_statement(t, p),
    }
    }
}

/// `let name = expression`, with an optional `;`.
pub open spec fn ps_let(t: Seq<TokenView>, p: int) -> Parsed
    decreases t.len() + 4 - p, 2nat,
{
    if p < 0 || p > t.len() {
        Err(ParseErrorView::UnexpectedEnd)
    } else {
    match tok(t, p + 1) {
        Some(TokenView::Identifier(name)) => if tok(t, p + 2) == Some(TokenView::Assign) {
            match ps_expression(t, p + 3, 0) {
                Ok((v, q)) => Ok((AstView::Let(name, Box::new(v)), skip_semi(t, q))),
                Err(e) => Err(e),
            }
        } else {
            expected(Expected::AssignAfterIdentifier)
        },
        _ => expected(Expected::IdentifierAfterLet),
    }
    }
}

/// `if condition statement`, with an optional `else statement`.
pub open spec fn ps_if(t: Seq<TokenView>, p: int) -> Parsed
    decreases t.len() + 4 - p, 2nat,
{
    if p < 0 || p > t.len() {
        Err(ParseErrorView::UnexpectedEnd)
    } else {
    match ps_expression(t, p + 1, 0) {
        Err(e) => Err(e),
        Ok((c, q)) => if q <= p || q > t.len() {
            Err(ParseErrorView::UnexpectedEnd)
        } else {
            match ps_statement(t, q) {
                Err(e) => Err(e),
                Ok((th, q2)) => if q2 <= p || q2 > t.len() {
                    Err(ParseErrorView::UnexpectedEnd)
                } else if tok(t, q2) == Some(TokenView::Else) {
                    match ps_statement(t, q2 + 1) {
                        Err(e) => Err(e),
                        Ok((el, q3)) => Ok((AstView::If(Box::new(c), Box::new(th), Some(Box::new(el))), q3)),
                    }
                } else {
                    Ok((AstView::If(Box::new(c), Box::new(th), None), q2))
                },
            }
        },
    }
    }
}

/// `while condition statement`.
pub open spec fn ps_while(t: Seq<TokenView>, p: int) -> Parsed
    decreases t.len() + 4 - p, 2nat,
{
    if p < 0 || p > t.len() {
        Err(ParseErrorView::UnexpectedEnd)
    } else {
    match ps_expression(t, p + 1, 0) {
        Err(e) => Err(e),
        Ok((c, q)) => if q <= p || q > t.len() {
            Err(ParseErrorView::UnexpectedEnd)
        } else {
            match ps_statement(t, q) {
                Err(e) => Err(e),
                Ok((body, q2)) => Ok((AstView::While(Box::new(c), Box::new(body)), q2)),
            }
        },
    }
    }
}

/// `for (init condition; increment) statement`, where `init` is a statement.
pub open spec fn ps_for(t: Seq<TokenView>, p: int) -> Parsed
    decreases t.len() + 4 - p, 2nat,
{
    if p < 0 || p > t.len() {
        Err(ParseErrorView::UnexpectedEnd)
    } else {
    if tok(t, p + 1) != Some(TokenView::LeftParen) {
        expected(Expected::LeftParenAfterFor)
    } else {
        match ps_statement(t, p + 2) {
            Err(e) => Err(e),
            Ok((init, q)) => if q <= p || q > t.len() {
                Err(ParseErrorView::UnexpectedEnd)
            } else {
                match ps_expression(t, q, 0) {
                    Err(e) => Err(e),
                    Ok((c, q2)) => if tok(t, q2) != Some(TokenView::Semicolon) {
                        expected(Expected::SemicolonAfterForCondition)
                    } else if q2 <= p || q2 > t.len() {
                        Err(ParseErrorView::UnexpectedEnd)
                    } else {
                        match ps_expression(t, q2 + 1, 0) {
                            Err(e) => Err(e),
                            Ok((inc, q3)) => if tok(t, q3) != Some(TokenView::RightParen) {
                                expected(Expected::RightParenInFor)
                            } else if q3 <= p || q3 > t.len() {
                                Err(ParseErrorView::UnexpectedEnd)
                            } else {
                                match ps_statement(t, q3 + 1) {
                                    Err(e) => Err(e),
                                    Ok((body, q4)) => Ok(
                                        (
                                            AstView::For(
                                                Box::new(init),
                                                Box::new(c),
                                                Box::new(inc),
                                                Box::new(body),
                                            ),
                                            q4,
                                        ),
                                    ),
                                }
                            },
                        }
                    },
                }
            },
        }
    }
    }
}

/// Parameter names from `q` up to the closing `)`, after `acc`.
pub open spec fn ps_parameters(t: Seq<TokenView>, q: int, acc: Seq<Seq<char>>) -> Result<
    (Seq<Seq<char>>, int),
    ParseErrorView,
>
    decreases t.len() + 4 - q,
{
    if q < 0 || q > t.len() {
        Err(ParseErrorView::UnexpectedEnd)
    } else {
    if tok(t, q) == Some(TokenView::RightParen) {
        Ok((acc, q))
    } else {
        match tok(t, q) {
            Some(TokenView::Identifier(x)) => if tok(t, q + 1) == Some(TokenView::Comma) {
                ps_parameters(t, q + 2, acc.push(x))
            } else if tok(t, q + 1) == Some(TokenView::RightParen) {
                Ok((acc.push(x), q + 1))
            } else {
                Err(ParseErrorView::Expected(Expected::CommaOrRightParenInParameters))
            },
            _ => Err(ParseErrorView::Expected(Expected::ParameterName)),
        }
    }
    }
}

/// `fn name(parameters) statement`.
pub open spec fn ps_function(t: Seq<TokenView>, p: int) -> Parsed
    decreases t.len() + 4 - p, 2nat,
{
    if p < 0 || p > t.len() {
        Err(ParseErrorView::UnexpectedEnd)
    } else {
    match tok(t, p + 1) {
        Some(TokenView::Identifier(name)) => if tok(t, p + 2) != Some(TokenView::LeftParen) {
            expected(Expected::LeftParenAfterFunctionName)
        } else {
            match ps_parameters(t, p + 3, seq![]) {
                Err(e) => Err(e),
                Ok((params, q)) => if q <= p || q > t.len() {
                    Err(ParseErrorView::UnexpectedEnd)
                } else {
                    match ps_statement(t, q + 1) {
                        Err(e) => Err(e),
                        Ok((body, q2)) => Ok((AstView::FunctionDefinition(name, params, Box::new(body)), q2)),
                    }
                },
            }
        },
        _ => expected(Expected::FunctionName),
    }
    }
}

/// `return`, with an optional value and an optional `;`.
pub open spec fn ps_return(t: Seq<TokenView>, p: int) -> Parsed
    decreases t.len() + 4 - p, 2nat,
{
    if p < 0 || p > t.len() {
        Err(ParseErrorView::UnexpectedEnd)
    } else {
    if tok(t, p + 1) == Some(TokenView::Semicolon) || tok(t, p + 1) is None {
        Ok((AstView::Return(None), skip_semi(t, p + 1)))
    } else {
        match ps_expression(t, p + 1, 0) {
            Err(e) => Err(e),
            Ok((v, q)) => Ok((AstView::Return(Some(Box::new(v))), skip_semi(t, q))),
        }
    }
    }
}

/// The statements of a block from `q`, after `acc`, and its closing `}`.
pub open spec fn ps_block_items(t: Seq<TokenView>, q: int, acc: Seq<AstView>) -> Parsed
    decreases t.len() + 4 - q, 4nat,
{
    if q < 0 || q > t.len() {
        Err(ParseErrorView::UnexpectedEnd)
    } else {
    if tok(t, q) is None || tok(t, q) == Some(TokenView::RightBrace) {
        if tok(t, q) == Some(TokenView::RightBrace) {
            Ok((AstView::Block(acc), q + 1))
        } else {
            expected(Expected::RightBrace)
        }
    } else {
        match ps_statement(t, q) {
            Err(e) => Err(e),
            Ok((st, q2)) => if q2 <= q || q2 > t.len() {
                Err(ParseErrorView::UnexpectedEnd)
            } else {
                ps_block_items(t, q2, acc.push(st))
            },
        }
    }
    }
}

/// An expression with an optional `;`.
pub open spec fn ps_expression_statement(t: Seq<TokenView>, p: int) -> Parsed
    decreases t.len() + 4 - p, 2nat,
{
    if p < 0 || p > t.len() {
        Err(ParseErrorView::UnexpectedEnd)
    } else {
    match ps_expression(t, p, 0) {
        Err(e) => Err(e),
        Ok((v, q)) => Ok((v, skip_semi(t, q))),
    }
    }
}

/// An expression whose binary operators bind at least as tightly as `min`.
pub open spec fn ps_expression(t: Seq<TokenView>, p: int, min: nat) -> Parsed
    decreases t.len() + 4 - p, 1nat,
{
    if p < 0 || p > t.len() {
        Err(ParseErrorView::UnexpectedEnd)
    } else {
    match ps_prefix(t, p) {
        Err(e) => Err(e),
        Ok((left, q)) => if q <= p || q > t.len() {
            Err(ParseErrorView::UnexpectedEnd)
        } else {
            ps_operators(t, left, q, min)
        },
    }
    }
}

/// Binary operators and indexing after `left`, from `q`, each
/// left-associative: the right operand binds one level tighter.
pub open spec fn ps_operators(t: Seq<TokenView>, left: AstView, q: int, min: nat) -> Parsed
    decreases t.len() + 4 - q, 1nat,
{
    if q < 0 || q > t.len() {
        Err(ParseErrorView::UnexpectedEnd)
    } else {
    match tok(t, q) {
        None => Ok((left, q)),
        Some(op) => {
            let prec = infix_precedence(op);
            if prec == 0 || prec < min {
                Ok((left, q))
            } else if op is LeftBracket {
                match ps_expression(t, q + 1, 0) {
                    Err(e) => Err(e),
                    Ok((index, q2)) => if tok(t, q2) != Some(TokenView::RightBracket) {
                        expected(Expected::RightBracket)
                    } else if q2 <= q || q2 > t.len() {
                        Err(ParseErrorView::UnexpectedEnd)
                    } else {
                        ps_operators(t, AstView::ArrayAccess(Box::new(left), Box::new(index)), q2 + 1, min)
                    },
                }
            } else {
                match ps_expression(t, q + 1, prec + 1) {
                    Err(e) => Err(e),
                    Ok((right, q2)) => if q2 <= q || q2 > t.len() {
                        Err(ParseErrorView::UnexpectedEnd)
                    } else {
                        ps_operators(t, AstView::Infix(op, Box::new(left), Box::new(right)), q2, min)
                    },
                }
            }
        },
    }
    }
}

/// Comma-separated expressions from `q`, after `acc`, and the closing token.
pub open spec fn ps_list(t: Seq<TokenView>, q: int, in_array: bool, acc: Seq<AstView>) -> Result<
    (Seq<AstView>, int),
    ParseErrorView,
>
    decreases t.len() + 4 - q, 2nat,
{
    if q < 0 || q > t.len() {
        Err(ParseErrorView::UnexpectedEnd)
    } else {
    if closes(t, q, in_array) {
        Ok((acc, q + 1))
    } else {
        match ps_expression(t, q, 0) {
            Err(e) => Err(e),
            Ok((e, q2)) => if q2 <= q || q2 > t.len() {
                Err(ParseErrorView::UnexpectedEnd)
            } else if tok(t, q2) == Some(TokenView::Comma) {
                ps_list(t, q2 + 1, in_array, acc.push(e))
            } else if closes(t, q2, in_array) {
                ps_list(t, q2, in_array, acc.push(e))
            } else if in_array {
                Err(ParseErrorView::Expected(Expected::CommaOrRightBracketInArray))
            } else {
                Err(ParseErrorView::Expected(Expected::CommaOrRightParenInArguments))
            },
        }
    }
    }
}

/// A literal, a name, a call, an array, a prefix operation, a parenthesised
/// expression or a block.
pub open spec fn ps_prefix(t: Seq<TokenView>, p: int) -> Parsed
    decreases t.len() + 4 - p, 0nat,
{
    if p < 0 || p > t.len() {
        Err(ParseErrorView::UnexpectedEnd)
    } else {
    match tok(t, p) {
        None => Err(ParseErrorView::UnexpectedEnd),
        Some(tk) => match tk {
            TokenView::Number(n) => Ok((AstView::Number(n), p + 1)),
            TokenView::True => Ok((AstView::Boolean(true), p + 1)),
            TokenView::False => Ok((AstView::Boolean(false), p + 1)),
            TokenView::Boolean(b) => Ok((AstView::Boolean(b), p + 1)),
            TokenView::Str(s) => Ok((AstView::Str(s), p + 1)),
            TokenView::Identifier(name) => if tok(t, p + 1) == Some(TokenView::LeftParen) {
                match ps_list(t, p + 2, false, seq![]) {
                    Err(e) => Err(e),
                    Ok((args, q)) => Ok((AstView::Call(name, args), q)),
                }
            } else {
                Ok((AstView::Identifier(name), p + 1))
            },
            TokenView::LeftBracket => match ps_list(t, p + 1, true, seq![]) {
                Err(e) => Err(e),
                Ok((items, q)) => Ok((AstView::Array(items), q)),
            },
            TokenView::Minus | TokenView::Not => match ps_expression(t, p + 1, PREFIX_PRECEDENCE as nat) {
                Err(e) => Err(e),
                Ok((v, q)) => Ok((AstView::Prefix(tk, Box::new(v)), q)),
            },
            TokenView::LeftParen => match ps_expression(t, p + 1, 0) {
                Err(e) => Err(e),
                Ok((v, q)) => if tok(t, q) == Some(TokenView::RightParen) {
                    Ok((v, q + 1))
                } else {
                    expected(Expected::RightParen)
                },
            },
            TokenView::LeftBrace => ps_block_items(t, p + 1, seq![]),
            _ => Err(ParseErrorView::UnexpectedToken(tk)),
        },
    }
    }
}

/// Every statement from `p` to the end of the input, after `acc`.
pub open spec fn ps_program(t: Seq<TokenView>, p: int, acc: Seq<AstView>) -> Parsed
    decreases t.len() + 4 - p,
{
    if p < 0 || p > t.len() {
        Err(ParseErrorView::UnexpectedEnd)
    } else {
    if tok(t, p) is None {
        Ok((AstView::Program(acc), p))
    } else {
        match ps_statement(t, p) {
            Err(e) => Err(e),
            Ok((st, q)) => if q <= p || q > t.len() {
                Err(ParseErrorView::UnexpectedEnd)
            } else {
                ps_program(t, q, acc.push(st))
            },
        }
    }
    }
}

/// The syntax tree of a whole token sequence.
pub open spec fn parse_spec(t: Seq<TokenView>) -> Result<AstView, ParseErrorView> {
    match ps_program(t, 0, seq![]) {
        Ok((n, _)) => Ok(n),
        Err(e) => Err(e),
    }
}

/// Reads a token sequence; the end of the sequence and `Eof` both end the input.
pub struct Parser {
    tokens: Vec<Token>,
    pos: usize,
}

/// `r` is the node that `spec` gives, and `end` the index after it.
pub open spec fn parsed_as(r: Result<AstNode, ParseError>, spec: Parsed, end: int) -> bool {
    match spec {
        Ok((n, e)) => r matches Ok(node) && node@ == n && end == e,
        Err(err) => r matches Err(x) && x@ == err,
    }
}

impl Parser {
    /// The tokens, as views.
    pub closed spec fn toks(&self) -> Seq<TokenView> {
        self.tokens@.map_values(|t: Token| t@)
    }

    /// The index of the next token.
    pub closed spec fn index(&self) -> int {
        self.pos as int
    }

    /// Every token has been read, but perhaps an `Eof`.
    pub closed spec fn at_end(&self) -> bool {
        tok(self.toks(), self.pos as int) is None
    }

    pub closed spec fn wf(&self) -> bool {
        self.pos <= self.tokens@.len()
    }

    pub fn new(tokens: Vec<Token>) -> (r: Self)
        ensures
            r.wf(),
            r.index() == 0,
            r.toks() == tokens@.map_values(|t: Token| t@),
    {
        Parser { tokens, pos: 0 }
    }

    fn peek(&self) -> (r: Option<&Token>)
        requires
            self.wf(),
        ensures
            match r {
                Some(t) => tok(self.toks(), self.pos as int) == Some(t@),
                None => tok(self.toks(), self.pos as int) is None,
            },
    {
        if self.pos < self.tokens.len() && !matches!(self.tokens[self.pos], Token::Eof) {
            Some(&self.tokens[self.pos])
        } else {
            None
        }
    }

    fn next(&mut self) -> (r: Option<Token>)
        requires
            old(self).wf(),
        ensures
            final(self).wf(),
            final(self).tokens == old(self).tokens,
            match r {
                Some(t) => final(self).pos == old(self).pos + 1 && tok(old(self).toks(), old(self).pos as int)
                    == Some(t@),
                None => final(self).pos == old(self).pos && tok(old(self).toks(), old(self).pos as int) is None,
            },
    {
        if self.pos < self.tokens.len() && !matches!(self.tokens[self.pos], Token::Eof) {
            let t = self.tokens[self.pos].clone();
            self.pos = self.pos + 1;
            Some(t)
        } else {
            None
        }
    }

    /// Consumes the next token when it is `;`.
    fn skip_semicolon(&mut self)
        requires
            old(self).wf(),
        ensures
            final(self).wf(),
            final(self).tokens == old(self).tokens,
            final(self).pos == skip_semi(old(self).toks(), old(self).pos as int),
    {
        if matches!(self.peek(), Some(Token::Semicolon)) {
            self.next();
        }
    }

    /// Consumes a `)`, else fails with `what`.
    fn expect_right_paren(&mut self, what: Expected) -> (r: Result<(), ParseError>)
        requires
            old(self).wf(),
        ensures
            final(self).wf(),
            final(self).tokens == old(self).tokens,
            old(self).pos <= final(self).pos,
            r is Ok <==> tok(old(self).toks(), old(self).pos as int) == Some(TokenView::RightParen),
            r is Ok ==> final(self).pos == old(self).pos + 1,
            r matches Err(e) ==> e@ == ParseErrorView::Expected(what),
    {
        match self.next() {
            Some(Token::RightParen) => Ok(()),
            _ => Err(ParseError::Expected(what)),
        }
    }

    /// Parses every statement up to the end of the input.
    pub fn parse_program(&mut self) -> (r: Result<AstNode, ParseError>)
        requires
            old(self).wf(),
        ensures
            final(self).wf(),
            parsed_as(r, ps_program(old(self).toks(), old(self).index(), seq![]), final(self).index()),
    {
        let mut statements: Vec<AstNode> = Vec::new();
        assert(node_views(statements@) =~= seq![]);
        while self.peek().is_some()
            invariant
                self.wf(),
                self.tokens == old(self).tokens,
                ps_program(old(self).toks(), old(self).pos as int, seq![]) == ps_program(
                    self.toks(),
                    self.pos as int,
                    node_views(statements@),
                ),
            decreases self.tokens@.len() - self.pos,
        {
            let s = match self.parse_statement() {
                Ok(s) => s,
                Err(e) => {
                    return Err(e);
                },
            };
            let ghost before = node_views(statements@);
            statements.push(s);
            assert(node_views(statements@) =~= before.push(s@));
        }
        let r = AstNode::Program(statements);
        assert(r@ == AstView::Program(node_views(statements@))) by {
            assert(r@->Program_0 =~= node_views(statements@));
        }
        Ok(r)
    }

    fn parse_statement(&mut self) -> (r: Result<AstNode, ParseError>)
        requires
            old(self).wf(),
        ensures
            final(self).wf(),
            final(self).tokens == old(self).tokens,
            old(self).pos <= final(self).pos,
            r is Ok ==> old(self).pos < final(self).pos,
            parsed_as(r, ps_statement(old(self).toks(), old(self).pos as int), final(self).pos as int),
        decreases old(self).tokens@.len() - old(self).pos, 3nat,
    {
        match self.peek() {
            Some(Token::Let) => self.parse_let_statement(),
            Some(Token::If) => self.parse_if_statement(),
            Some(Token::While) => self.parse_while_statement(),
            Some(Token::For) => self.parse_for_statement(),
            Some(Token::Fn) => self.parse_function_definition(),
            Some(Token::Return) => self.parse_return_statement(),
            Some(Token::Break) => {
                self.next();
                self.skip_semicolon();
                Ok(AstNode::BreakStatement)
            },
            Some(Token::Continue) => {
                self.next();
                self.skip_semicolon();
                Ok(AstNode::ContinueStatement)
            },
            Some(Token::LeftBrace) => {
                self.next();
                self.parse_block_body()
            },
            _ => self.parse_expression_statement(),
        }
    }

    fn parse_if_statement(&mut self) -> (r: Result<AstNode, ParseError>)
        requires
            old(self).wf(),
            !old(self).at_end(),
        ensures
            final(self).wf(),
            final(self).tokens == old(self).tokens,
            old(self).pos <= final(self).pos,
            r is Ok ==> old(self).pos < final(self).pos,
            parsed_as(r, ps_if(old(self).toks(), old(self).pos as int), final(self).pos as int),
        decreases old(self).tokens@.len() - old(self).pos, 2nat,
    {
        self.next();
        let condition = self.parse_expression(0)?;
        let then_branch = self.parse_statement()?;
        if matches!(self.peek(), Some(Token::Else)) {
            self.next();
            let e = self.parse_statement()?;
            Ok(
                AstNode::IfStatement {
                    condition: Box::new(condition),
                    then_branch: Box::new(then_branch),
                    else_branch: Some(Box::new(e)),
                },
            )
        } else {
            Ok(
                AstNode::IfStatement {
                    condition: Box::new(condition),
                    then_branch: Box::new(then_branch),
                    else_branch: None,
                },
            )
        }
    }

    fn parse_while_statement(&mut self) -> (r: Result<AstNode, ParseError>)
        requires
            old(self).wf(),
            !old(self).at_end(),
        ensures
            final(self).wf(),
            final(self).tokens == old(self).tokens,
            old(self).pos <= final(self).pos,
            r is Ok ==> old(self).pos < final(self).pos,
            parsed_as(r, ps_while(old(self).toks(), old(self).pos as int), final(self).pos as int),
        decreases old(self).tokens@.len() - old(self).pos, 2nat,
    {
        self.next();
        let condition = self.parse_expression(0)?;
        let body = self.parse_statement()?;
        Ok(AstNode::WhileStatement { condition: Box::new(condition), body: Box::new(body) })
    }

    fn parse_for_statement(&mut self) -> (r: Result<AstNode, ParseError>)
        requires
            old(self).wf(),
            !old(self).at_end(),
        ensures
            final(self).wf(),
            final(self).tokens == old(self).tokens,
            old(self).pos <= final(self).pos,
            r is Ok ==> old(self).pos < final(self).pos,
            parsed_as(r, ps_for(old(self).toks(), old(self).pos as int), final(self).pos as int),
        decreases old(self).tokens@.len() - old(self).pos, 2nat,
    {
        self.next();
        match self.next() {
            Some(Token::LeftParen) => {},
            _ => {
                return Err(ParseError::Expected(Expected::LeftParenAfterFor));
            },
        }
        let init = self.parse_statement()?;
        let condition = self.parse_expression(0)?;
        match self.next() {
            Some(Token::Semicolon) => {},
            _ => {
                return Err(ParseError::Expected(Expected::SemicolonAfterForCondition));
            },
        }
        let increment = self.parse_expression(0)?;
        self.expect_right_paren(Expected::RightParenInFor)?;
        let body = self.parse_statement()?;
        Ok(
            AstNode::ForStatement {
                init: Box::new(init),
                condition: Box::new(condition),
                increment: Box::new(increment),
                body: Box::new(body),
            },
        )
    }

    fn parse_function_definition(&mut self) -> (r: Result<AstNode, ParseError>)
        requires
            old(self).wf(),
            !old(self).at_end(),
        ensures
            final(self).wf(),
            final(self).tokens == old(self).tokens,
            old(self).pos <= final(self).pos,
            r is Ok ==> old(self).pos < final(self).pos,
            parsed_as(r, ps_function(old(self).toks(), old(self).pos as int), final(self).pos as int),
        decreases old(self).tokens@.len() - old(self).pos, 2nat,
    {
        self.next();
        let name = match self.next() {
            Some(Token::Identifier(name)) => name,
            _ => {
                return Err(ParseError::Expected(Expected::FunctionName));
            },
        };
        match self.next() {
            Some(Token::LeftParen) => {},
            _ => {
                return Err(ParseError::Expected(Expected::LeftParenAfterFunctionName));
            },
        }
        let ghost start = self.pos as int;
        let mut parameters: Vec<String> = Vec::new();
        assert(names_view(parameters@) =~= seq![]);
        while !matches!(self.peek(), Some(Token::RightParen))
            invariant
                self.wf(),
                self.tokens == old(self).tokens,
                old(self).pos < start <= self.pos,
                start == old(self).pos + 3,
                self.toks() == old(self).toks(),
                tok(self.toks(), old(self).pos + 1) == Some(TokenView::Identifier(name@)),
                tok(self.toks(), old(self).pos + 2) == Some(TokenView::LeftParen),
                ps_parameters(self.toks(), start, seq![]) == ps_parameters(
                    self.toks(),
                    self.pos as int,
                    names_view(parameters@),
                ),
            decreases self.tokens@.len() - self.pos,
        {
            let ghost q = self.pos as int;
            match self.next() {
                Some(Token::Identifier(param)) => {
                    let ghost before = names_view(parameters@);
                    parameters.push(param);
                    assert(names_view(parameters@) =~= before.push(param@));
                },
                _ => {
                    return Err(ParseError::Expected(Expected::ParameterName));
                },
            }
            if matches!(self.peek(), Some(Token::Comma)) {
                self.next();
            } else if !matches!(self.peek(), Some(Token::RightParen)) {
                return Err(ParseError::Expected(Expected::CommaOrRightParenInParameters));
            }
        }
        self.expect_right_paren(Expected::RightParenAfterParameters)?;
        let body = self.parse_statement()?;
        Ok(AstNode::FunctionDefinition { name, parameters, body: Box::new(body) })
    }

    fn parse_return_statement(&mut self) -> (r: Result<AstNode, ParseError>)
        requires
            old(self).wf(),
            !old(self).at_end(),
        ensures
            final(self).wf(),
            final(self).tokens == old(self).tokens,
            old(self).pos <= final(self).pos,
            r is Ok ==> old(self).pos < final(self).pos,
            parsed_as(r, ps_return(old(self).toks(), old(self).pos as int), final(self).pos as int),
        decreases old(self).tokens@.len() - old(self).pos, 2nat,
    {
        self.next();
        if matches!(self.peek(), Some(Token::Semicolon)) || self.peek().is_none() {
            self.skip_semicolon();
            Ok(AstNode::ReturnStatement { value: None })
        } else {
            let v = self.parse_expression(0)?;
            self.skip_semicolon();
            Ok(AstNode::ReturnStatement { value: Some(Box::new(v)) })
        }
    }

    fn parse_let_statement(&mut self) -> (r: Result<AstNode, ParseError>)
        requires
            old(self).wf(),
            !old(self).at_end(),
        ensures
            final(self).wf(),
            final(self).tokens == old(self).tokens,
            old(self).pos <= final(self).pos,
            r is Ok ==> old(self).pos < final(self).pos,
            parsed_as(r, ps_let(old(self).toks(), old(self).pos as int), final(self).pos as int),
        decreases old(self).tokens@.len() - old(self).pos, 2nat,
    {
        self.next();
        let name = match self.next() {
            Some(Token::Identifier(name)) => name,
            _ => {
                return Err(ParseError::Expected(Expected::IdentifierAfterLet));
            },
        };
        match self.next() {
            Some(Token::Assign) => {},
            _ => {
                return Err(ParseError::Expected(Expected::AssignAfterIdentifier));
            },
        }
        let value = self.parse_expression(0)?;
        self.skip_semicolon();
        Ok(AstNode::LetStatement { name, value: Box::new(value) })
    }

    /// Parses the statements of a block whose `{` has been read, and its `}`.
    fn parse_block_body(&mut self) -> (r: Result<AstNode, ParseError>)
        requires
            old(self).wf(),
        ensures
            final(self).wf(),
            final(self).tokens == old(self).tokens,
            old(self).pos <= final(self).pos,
            r is Ok ==> old(self).pos < final(self).pos,
            parsed_as(r, ps_block_items(old(self).toks(), old(self).pos as int, seq![]), final(self).pos as int),
        decreases old(self).tokens@.len() - old(self).pos, 4nat,
    {
        let mut statements: Vec<AstNode> = Vec::new();
        assert(node_views(statements@) =~= seq![]);
        while self.peek().is_some() && !matches!(self.peek(), Some(Token::RightBrace))
            invariant
                self.wf(),
                self.tokens == old(self).tokens,
                old(self).pos <= self.pos,
                ps_block_items(old(self).toks(), old(self).pos as int, seq![]) == ps_block_items(
                    self.toks(),
                    self.pos as int,
                    node_views(statements@),
                ),
            decreases self.tokens@.len() - self.pos,
        {
            let s = self.parse_statement()?;
            let ghost before = node_views(statements@);
            statements.push(s);
            assert(node_views(statements@) =~= before.push(s@));
        }
        match self.next() {
            Some(Token::RightBrace) => {
                let r = AstNode::BlockStatement(statements);
                assert(r@ == AstView::Block(node_views(statements@))) by {
                    assert(r@->Block_0 =~= node_views(statements@));
                }
                Ok(r)
            },
            _ => Err(ParseError::Expected(Expected::RightBrace)),
        }
    }

    fn parse_expression_statement(&mut self) -> (r: Result<AstNode, ParseError>)
        requires
            old(self).wf(),
        ensures
            final(self).wf(),
            final(self).tokens == old(self).tokens,
            old(self).pos <= final(self).pos,
            r is Ok ==> old(self).pos < final(self).pos,
            parsed_as(r, ps_expression_statement(old(self).toks(), old(self).pos as int), final(self).pos as int),
        decreases old(self).tokens@.len() - old(self).pos, 2nat,
    {
        let expr = self.parse_expression(0)?;
        self.skip_semicolon();
        Ok(expr)
    }

    /// Parses an expression whose binary operators bind at least as tightly
    /// as `min_precedence`.
    fn parse_expression(&mut self, min_precedence: u8) -> (r: Result<AstNode, ParseError>)
        requires
            old(self).wf(),
            min_precedence <= PREFIX_PRECEDENCE,
        ensures
            final(self).wf(),
            final(self).tokens == old(self).tokens,
            old(self).pos <= final(self).pos,
            r is Ok ==> old(self).pos < final(self).pos,
            parsed_as(r, ps_expression(old(self).toks(), old(self).pos as int, min_precedence as nat), final(self).pos as int),
        decreases old(self).tokens@.len() - old(self).pos, 1nat,
    {
        let mut left = self.parse_prefix()?;
        while self.next_binds(min_precedence)
            invariant
                self.wf(),
                self.tokens == old(self).tokens,
                old(self).pos < self.pos,
                min_precedence <= PREFIX_PRECEDENCE,
                ps_expression(old(self).toks(), old(self).pos as int, min_precedence as nat) == ps_operators(
                    self.toks(),
                    left@,
                    self.pos as int,
                    min_precedence as nat,
                ),
            decreases self.tokens@.len() - self.pos,
        {
            let op = match self.next() {
                Some(t) => t,
                None => {
                    return Err(ParseError::UnexpectedEnd);
                },
            };
            let precedence = get_infix_precedence(&op);
            if matches!(op, Token::LeftBracket) {
                let index = self.parse_expression(0)?;
                match self.next() {
                    Some(Token::RightBracket) => {},
                    _ => {
                        return Err(ParseError::Expected(Expected::RightBracket));
                    },
                }
                left = AstNode::ArrayAccess { array: Box::new(left), index: Box::new(index) };
            } else {
                let right = self.parse_expression(precedence + 1)?;
                left = AstNode::InfixExpression { op, left: Box::new(left), right: Box::new(right) };
            }
        }
        Ok(left)
    }

    /// Whether the next token is an operator that binds at least as tightly as `min`.
    fn next_binds(&self, min: u8) -> (r: bool)
        requires
            self.wf(),
        ensures
            r == (tok(self.toks(), self.pos as int) matches Some(op) && infix_precedence(op) != 0
                && infix_precedence(op) >= min),
    {
        match self.peek() {
            Some(t) => {
                let p = get_infix_precedence(t);
                p != 0 && p >= min
            },
            None => false,
        }
    }

    fn at_close(&self, in_array: bool) -> (r: bool)
        requires
            self.wf(),
        ensures
            r == closes(self.toks(), self.pos as int, in_array),
    {
        if in_array {
            matches!(self.peek(), Some(Token::RightBracket))
        } else {
            matches!(self.peek(), Some(Token::RightParen))
        }
    }

    /// Parses a comma-separated list of expressions up to the closing token,
    /// which it consumes.
    fn parse_list(&mut self, in_array: bool) -> (r: Result<Vec<AstNode>, ParseError>)
        requires
            old(self).wf(),
        ensures
            final(self).wf(),
            final(self).tokens == old(self).tokens,
            old(self).pos <= final(self).pos,
            r is Ok ==> old(self).pos < final(self).pos,
            match ps_list(old(self).toks(), old(self).pos as int, in_array, seq![]) {
                Ok((items, e)) => r matches Ok(v) && node_views(v@) == items && final(self).pos == e,
                Err(err) => r matches Err(x) && x@ == err,
            },
        decreases old(self).tokens@.len() - old(self).pos, 2nat,
    {
        let mut items: Vec<AstNode> = Vec::new();
        assert(node_views(items@) =~= seq![]);
        while !self.at_close(in_array)
            invariant
                self.wf(),
                self.tokens == old(self).tokens,
                old(self).pos <= self.pos,
                ps_list(old(self).toks(), old(self).pos as int, in_array, seq![]) == ps_list(
                    self.toks(),
                    self.pos as int,
                    in_array,
                    node_views(items@),
                ),
            decreases self.tokens@.len() - self.pos,
        {
            let e = self.parse_expression(0)?;
            let ghost before = node_views(items@);
            items.push(e);
            assert(node_views(items@) =~= before.push(e@));
            if matches!(self.peek(), Some(Token::Comma)) {
                self.next();
            } else if in_array && !matches!(self.peek(), Some(Token::RightBracket)) {
                return Err(ParseError::Expected(Expected::CommaOrRightBracketInArray));
            } else if !in_array && !matches!(self.peek(), Some(Token::RightParen)) {
                return Err(ParseError::Expected(Expected::CommaOrRightParenInArguments));
            }
        }
        self.next();
        Ok(items)
    }

    fn parse_prefix(&mut self) -> (r: Result<AstNode, ParseError>)
        requires
            old(self).wf(),
        ensures
            final(self).wf(),
            final(self).tokens == old(self).tokens,
            old(self).pos <= final(self).pos,
            r is Ok ==> old(self).pos < final(self).pos,
            parsed_as(r, ps_prefix(old(self).toks(), old(self).pos as int), final(self).pos as int),
        decreases old(self).tokens@.len() - old(self).pos, 0nat,
    {
        let token = match self.next() {
            Some(t) => t,
            None => {
                return Err(ParseError::UnexpectedEnd);
            },
        };
        match token {
            Token::Number(n) => Ok(AstNode::Number(n)),
            Token::True => Ok(AstNode::Boolean(true)),
            Token::False => Ok(AstNode::Boolean(false)),
            Token::Boolean(b) => Ok(AstNode::Boolean(b)),
            Token::String(s) => Ok(AstNode::String(s)),
            Token::Identifier(name) => {
                if matches!(self.peek(), Some(Token::LeftParen)) {
                    self.next();
                    let arguments = self.parse_list(false)?;
                    let r = AstNode::FunctionCall { name, arguments };
                    assert(r@->Call_1 =~= node_views(arguments@));
                    Ok(r)
                } else {
                    Ok(AstNode::Identifier(name))
                }
            },
            Token::LeftBracket => {
                let elements = self.parse_list(true)?;
                let r = AstNode::Array(elements);
                assert(r@->Array_0 =~= node_views(elements@));
                Ok(r)
            },
            Token::Minus | Token::Not => {
                let right = self.parse_expression(PREFIX_PRECEDENCE)?;
                Ok(AstNode::PrefixExpression { op: token, right: Box::new(right) })
            },
            Token::LeftParen => {
                let expr = self.parse_expression(0)?;
                self.expect_right_paren(Expected::RightParen)?;
                Ok(expr)
            },
            Token::LeftBrace => self.parse_block_body(),
            t => Err(ParseError::UnexpectedToken(t)),
        }
    }
}

/// Binding strength of a token used as a binary or postfix operator; 0 for a
/// token that is neither.
pub fn get_infix_precedence(token: &Token) -> (r: u8)
    ensures
        r as nat == infix_precedence(token@),
{
    match token {
        Token::Or => 1,
        Token::And => 2,
        Token::Equal | Token::NotEqual | Token::LessThan | Token::GreaterThan
        | Token::LessThanOrEqual | Token::GreaterThanOrEqual => 3,
        Token::Plus | Token::Minus => 4,
        Token::Multiply | Token::Divide | Token::Modulo => 5,
        Token::LeftBracket => 7,
        _ => 0,
    }
}

} // verus!

//! Recursive-descent parser: drives the tokenizer with a two-token lookahead
//! window, applies ordered-alternative grammar rules, and builds the AST.
//!
//! Function-call parenthesization is contextual: optional directly at top
//! level, mandatory once nested (inside an assignment's right-hand side, a
//! call argument or an `if` condition).  The context is threaded explicitly
//! as a [`ParseContext`] parameter, never kept as shared mutable state.

use vstd::prelude::*;
use crate::ast::{spec_map_operator, Assignment, Block, Call, Expression, If, Infix, InfixOp};
use crate::lexer::{
    pos_wf, spec_next, Keyword, LexError, LexStep, Lexer, Position, Symbol, Token, TokenType,
    TokenTypeView, TokenView,
};
use crate::lexer::lemma_next_props;

verus! {

/// Where a production stands: directly at top level, or nested inside an
/// assignment's right-hand side, a call argument or an `if` condition.
#[derive(Debug, Clone, Copy, PartialEq, Eq, Structural)]
pub enum ParseContext {
    TopLevel,
    Nested,
}

/// The shape of a token, without its payload: what `expect`-style checks
/// compare and what a syntax error reports.
#[derive(Debug, Clone, Copy, PartialEq, Eq, Structural)]
pub enum TokenKind {
    Identifier,
    Integer,
    Float,
    Symbol(Symbol),
    Keyword(Keyword),
    EOF,
}

/// A parse failure: either the tokenizer faulted, or a committed production
/// met the wrong token, or no production opens at the current token.
#[derive(Debug, Clone, Copy, PartialEq, Eq)]
pub enum ParseError {
    Lexical(LexError),
    UnexpectedToken { expected: TokenKind, found: TokenKind, position: Position },
    ExpectedExpression { found: TokenKind, position: Position },
}

/// The shape of a token classification.
pub open spec fn kind_of(t: TokenTypeView) -> TokenKind {
    match t {
        TokenTypeView::Identifier(_) => TokenKind::Identifier,
        TokenTypeView::Integer(_) => TokenKind::Integer,
        TokenTypeView::Float(_) => TokenKind::Float,
        TokenTypeView::Symbol(sym) => TokenKind::Symbol(sym),
        TokenTypeView::Keyword(kw) => TokenKind::Keyword(kw),
        TokenTypeView::EOF => TokenKind::EOF,
    }
}

/// The shape of a token classification, computed.
fn token_kind(t: &TokenType) -> (k: TokenKind)
    ensures
        k == kind_of(t@),
{
    match t {
        TokenType::Identifier(_) => TokenKind::Identifier,
        TokenType::Integer(_) => TokenKind::Integer,
        TokenType::Float(_) => TokenKind::Float,
        TokenType::Symbol(sym) => TokenKind::Symbol(*sym),
        TokenType::Keyword(kw) => TokenKind::Keyword(*kw),
        TokenType::EOF => TokenKind::EOF,
    }
}

/// A token that opens an expression: a leaf literal or identifier, or the
/// keyword `if`.
pub open spec fn opens_expression(t: TokenTypeView) -> bool {
    ||| t is Identifier
    ||| t is Integer
    ||| t is Float
    ||| t == TokenTypeView::Keyword(Keyword::If)
}

/// A token that can start a call argument.
pub open spec fn starts_argument(t: TokenTypeView) -> bool {
    t is Identifier || t is Integer || t is Float
}

/// An identifier is a call candidate when the token after it opens an
/// argument list: `(`, or a token that can begin an argument.
pub open spec fn call_candidate(next: TokenTypeView) -> bool {
    next == TokenTypeView::Symbol(Symbol::LParen) || starts_argument(next)
}

/// The token standing at cursor position `p`, with the cursor after it, as
/// long as the tokenizer does not fault there.
pub open spec fn step_token(s: Seq<char>, p: Position) -> Option<(TokenView, Position)> {
    match spec_next(s, p) {
        LexStep::Tok { token, next } => Some((token, next)),
        LexStep::Fail { .. } => None,
    }
}

/// The cursor after one required symbol token at `p`.
pub open spec fn step_sym(s: Seq<char>, p: Position, sym: Symbol) -> Option<Position> {
    match step_token(s, p) {
        Some((t, q)) => if t.token_type == TokenTypeView::Symbol(sym) {
            Some(q)
        } else {
            None
        },
        None => None,
    }
}

/// The cursor after one required keyword token at `p`.
pub open spec fn step_kw(s: Seq<char>, p: Position, kw: Keyword) -> Option<Position> {
    match step_token(s, p) {
        Some((t, q)) => if t.token_type == TokenTypeView::Keyword(kw) {
            Some(q)
        } else {
            None
        },
        None => None,
    }
}

/// The cursor after one symbol token at `p` that spells the given binary
/// operator.
pub open spec fn step_op(s: Seq<char>, p: Position, op: InfixOp) -> Option<Position> {
    match step_token(s, p) {
        Some((t, q)) => match t.token_type {
            TokenTypeView::Symbol(sym) => if spec_map_operator(sym) == Some(op) {
                Some(q)
            } else {
                None
            },
            _ => None,
        },
        None => None,
    }
}

/// The precedence level a binary operator binds at: comparison binds
/// loosest, then additive, then multiplicative.
pub open spec fn op_level(op: InfixOp) -> int {
    match op {
        InfixOp::DoubleEquals => 1,
        InfixOp::NotEquals => 1,
        InfixOp::GreaterThan => 1,
        InfixOp::GreaterEquals => 1,
        InfixOp::LessThan => 1,
        InfixOp::LessEquals => 1,
        InfixOp::Plus => 2,
        InfixOp::Minus => 2,
        InfixOp::Star => 3,
        InfixOp::Slash => 3,
    }
}

/// Where expression `e` ends when derived from the tokens of `s` starting at
/// cursor `p`, under the given parenthesization context, as an expression of
/// the given precedence level — or nothing, where the tokens do not derive
/// `e`.  Levels stratify the grammar so that each token sequence derives
/// exactly one tree: 0 is a statement (`if` and assignment live only there),
/// 1 comparison, 2 additive, 3 multiplicative, 4 an operand.  An infix node
/// must bind at least as tightly as its level asks, its left arm may chain
/// at the same level (left associativity), and its right arm must bind
/// strictly tighter.  This is the grammar, stated declaratively: what
/// `parse` returns is proved to derive from exactly the tokens it consumed.
pub open spec fn expr_end(
    s: Seq<char>,
    e: Expression,
    p: Position,
    ctx: ParseContext,
    level: int,
) -> Option<Position>
    decreases e, 0int,
{
    match e {
        Expression::Identifier(name) => match step_token(s, p) {
            Some((t, q)) => if t.token_type == TokenTypeView::Identifier(name@) {
                Some(q)
            } else {
                None
            },
            None => None,
        },
        Expression::Integer(value) => match step_token(s, p) {
            Some((t, q)) => if t.token_type == TokenTypeView::Integer(value as int) {
                Some(q)
            } else {
                None
            },
            None => None,
        },
        Expression::Float(text) => match step_token(s, p) {
            Some((t, q)) => if t.token_type == TokenTypeView::Float(text@) {
                Some(q)
            } else {
                None
            },
            None => None,
        },
        Expression::Assignment(a) => if level != 0 {
            None
        } else {
            match step_token(s, p) {
                Some((t, p1)) => if t.token_type == TokenTypeView::Identifier(a.identifier@) {
                    match step_sym(s, p1, Symbol::Equals) {
                        Some(p2) => expr_end(s, *a.value, p2, ParseContext::Nested, 0),
                        None => None,
                    }
                } else {
                    None
                },
                None => None,
            }
        },
        Expression::If(i) => if level != 0 {
            None
        } else {
            match step_kw(s, p, Keyword::If) {
            Some(p1) => match expr_end(s, *i.condition, p1, ParseContext::Nested, 0) {
                Some(p2) => match step_sym(s, p2, Symbol::Comma) {
                    Some(p3) => match block_end(s, i.then_block, p3, ctx) {
                        Some(p4) => match i.else_block {
                            Some(b) => match step_kw(s, p4, Keyword::Else) {
                                Some(p5) => match step_sym(s, p5, Symbol::Comma) {
                                    Some(p6) => block_end(s, b, p6, ctx),
                                    None => None,
                                },
                                None => None,
                            },
                            None => match step_token(s, p4) {
                                Some((t, _)) => if t.token_type == TokenTypeView::Keyword(
                                    Keyword::Else,
                                ) {
                                    None
                                } else {
                                    Some(p4)
                                },
                                None => None,
                            },
                        },
                        None => None,
                    },
                    None => None,
                },
                None => None,
            },
            None => None,
            }
        },
        Expression::Call(c) => match step_token(s, p) {
            Some((t, p1)) => if t.token_type == TokenTypeView::Identifier(c.callee@) {
                if step_sym(s, p1, Symbol::LParen) is Some {
                    match step_sym(s, p1, Symbol::LParen) {
                        Some(p2) => match args_walk(s, c.arguments@, p2) {
                            Some(m) => match step_sym(s, m, Symbol::RParen) {
                                Some(q) => Some(q),
                                None => if c.arguments@.len() > 0 {
                                    // one trailing comma is taken before the
                                    // closing parenthesis
                                    match step_sym(s, m, Symbol::Comma) {
                                        Some(m1) => step_sym(s, m1, Symbol::RParen),
                                        None => None,
                                    }
                                } else {
                                    None
                                },
                            },
                            None => None,
                        },
                        None => None,
                    }
                } else if ctx == ParseContext::TopLevel && c.arguments@.len() > 0 {
                    // a bare argument list, legal at top level only, ends at
                    // the first non-comma after an argument
                    match args_walk(s, c.arguments@, p1) {
                        Some(m) => match step_token(s, m) {
                            Some((t2, _)) => if t2.token_type == TokenTypeView::Symbol(
                                Symbol::Comma,
                            ) {
                                None
                            } else {
                                Some(m)
                            },
                            None => None,
                        },
                        None => None,
                    }
                } else {
                    None
                }
            } else {
                None
            },
            None => None,
        },
        Expression::Infix(i) => if op_level(i.operator) < level {
            None
        } else {
            match expr_end(s, *i.left, p, ctx, op_level(i.operator)) {
                Some(m) => match step_op(s, m, i.operator) {
                    Some(m1) => expr_end(s, *i.right, m1, ctx, op_level(i.operator) + 1),
                    None => None,
                },
                None => None,
            }
        },
    }
}

/// Where a comma-separated argument list ends, each argument derived in
/// nested context, starting at cursor `p`.
pub open spec fn args_walk(s: Seq<char>, args: Seq<Expression>, p: Position) -> Option<Position>
    decreases args, 0int,
{
    if args.len() == 0 {
        Some(p)
    } else {
        match args_walk(s, args.drop_last(), p) {
            Some(m) => {
                let after_sep = if args.len() > 1 {
                    step_sym(s, m, Symbol::Comma)
                } else {
                    Some(m)
                };
                match after_sep {
                    Some(m1) => expr_end(s, args.last(), m1, ParseContext::Nested, 0),
                    None => None,
                }
            },
            None => None,
        }
    }
}

/// Where a run of statement-expressions ends, derived one after the other
/// starting at cursor `p`.
pub open spec fn stmts_walk(
    s: Seq<char>,
    stmts: Seq<Expression>,
    p: Position,
    ctx: ParseContext,
) -> Option<Position>
    decreases stmts, 0int,
{
    if stmts.len() == 0 {
        Some(p)
    } else {
        match stmts_walk(s, stmts.drop_last(), p, ctx) {
            Some(m) => expr_end(s, stmts.last(), m, ctx, 0),
            None => None,
        }
    }
}

/// Where a block ends: its statements, then a consumed `.`, or `EOF` left
/// standing.
pub open spec fn block_end(s: Seq<char>, b: Block, p: Position, ctx: ParseContext) -> Option<
    Position,
>
    decreases b, 0int,
{
    match stmts_walk(s, b.statements@, p, ctx) {
        Some(m) => match step_token(s, m) {
            Some((t, q)) => if t.token_type == TokenTypeView::Symbol(Symbol::Dot) {
                Some(q)
            } else if t.token_type is EOF {
                Some(m)
            } else {
                None
            },
            None => None,
        },
        None => None,
    }
}

/// The result is exactly the lexical fault that refilling the lookahead
/// window met: the tokenizer faulted where the next token would be read, and
/// that very error came back.  Where no such fault stands, this is false, so
/// a contract carrying it as the only error case owes success otherwise.
pub open spec fn refill_fault(p: &Parser, r: Result<Expression, ParseError>) -> bool {
    &&& spec_next(p.input_seq(), p.fill_at()) is Fail
    &&& (r matches Err(e) && spec_next(p.input_seq(), p.fill_at()) matches LexStep::Fail {
        error,
        next,
    } && e == ParseError::Lexical(error))
}

/// The binary operator a token spells, if any.
pub open spec fn token_op(t: TokenTypeView) -> Option<InfixOp> {
    match t {
        TokenTypeView::Symbol(sym) => spec_map_operator(sym),
        _ => None,
    }
}

/// The token spells no operator of the given precedence level.
pub open spec fn no_op_at_level(t: TokenTypeView, level: int) -> bool {
    match token_op(t) {
        Some(op) => op_level(op) != level,
        None => true,
    }
}

/// A plain leaf stands under the window: a literal, or an identifier that
/// opens neither an assignment nor a call.
pub open spec fn plain_leaf(cur: TokenTypeView, nxt: TokenTypeView) -> bool {
    &&& starts_argument(cur)
    &&& cur is Identifier ==> !(nxt == TokenTypeView::Symbol(Symbol::Equals)) && !call_candidate(
        nxt,
    )
}

/// A plain leaf stands under the window and the next window refill cannot
/// fault: consuming the leaf is certain to go through.
pub open spec fn leaf_ready(p: Parser) -> bool {
    &&& plain_leaf(p.cur().token_type, p.nxt().token_type)
    &&& !(spec_next(p.input_seq(), p.fill_at()) is Fail)
}

/// A plain-leaf expression stands just beyond the window: the two tokens
/// after the lookahead are a plain leaf and its follower, no operator
/// continues it, and the refill beyond reads cleanly — consuming that leaf
/// as a nested value is certain to go through.
pub open spec fn leaf_ahead(p: Parser) -> bool {
    spec_next(p.input_seq(), p.fill_at()) matches LexStep::Tok { token: t3, next: n3 }
        && (spec_next(p.input_seq(), n3) matches LexStep::Tok { token: t4, next: n4 }
        && plain_leaf(t3.token_type, t4.token_type) && token_op(t4.token_type) is None && !(
    spec_next(p.input_seq(), n4) is Fail))
}

/// An empty argument list stands ahead: the lookahead is `(`, a `)` token
/// follows it at once, the token after that reads cleanly, and so does the
/// refill beyond — consuming `f()` is certain to go through.
pub open spec fn empty_call_ready(p: Parser) -> bool {
    &&& p.nxt().token_type == TokenTypeView::Symbol(Symbol::LParen)
    &&& (spec_next(p.input_seq(), p.fill_at()) matches LexStep::Tok { token: t3, next: n3 }
        && t3.token_type == TokenTypeView::Symbol(Symbol::RParen) && (spec_next(
        p.input_seq(),
        n3,
    ) matches LexStep::Tok { token: t4, next: n4 } && !(spec_next(p.input_seq(), n4) is Fail)))
}

/// The state an argument loop keeps between arguments that were followed by
/// a comma: the walked list ends at `m`, and a comma moves the cursor from
/// `m` to `pnow`.
pub open spec fn post_comma_state(
    s: Seq<char>,
    args: Seq<Expression>,
    p0: Position,
    pnow: Position,
) -> bool {
    match args_walk(s, args, p0) {
        Some(m) => step_sym(s, m, Symbol::Comma) == Some(pnow),
        None => false,
    }
}

/// One more argument appended to a walked list picks up where the list
/// ended: past the separating comma where the list was not empty, and on to
/// the argument itself.
proof fn lemma_args_walk_push(s: Seq<char>, args: Seq<Expression>, a: Expression, p: Position)
    ensures
        args_walk(s, args.push(a), p) == (match args_walk(s, args, p) {
            Some(m) => {
                let after_sep = if args.len() > 0 {
                    step_sym(s, m, Symbol::Comma)
                } else {
                    Some(m)
                };
                match after_sep {
                    Some(m1) => expr_end(s, a, m1, ParseContext::Nested, 0),
                    None => None,
                }
            },
            None => None,
        }),
{
    assert(args.push(a).drop_last() =~= args);
    assert(args.push(a).last() == a);
}

/// One more statement appended to a walked run picks up where the run ended.
proof fn lemma_stmts_walk_push(
    s: Seq<char>,
    stmts: Seq<Expression>,
    e: Expression,
    p: Position,
    ctx: ParseContext,
)
    ensures
        stmts_walk(s, stmts.push(e), p, ctx) == (match stmts_walk(s, stmts, p, ctx) {
            Some(m) => expr_end(s, e, m, ctx, 0),
            None => None,
        }),
{
    assert(stmts.push(e).drop_last() =~= stmts);
    assert(stmts.push(e).last() == e);
}

/// The parser: the tokenizer, the two-token lookahead window, and the ghost
/// positions the window's tokens were read from.
pub struct Parser {
    lexer: Lexer,
    current: Token,
    next: Token,
    cur_start: Ghost<Position>,
    next_start: Ghost<Position>,
}

impl Parser {
    /// The input characters.
    pub closed spec fn input_seq(&self) -> Seq<char> {
        self.lexer.input_seq()
    }

    /// The token under the window.
    pub closed spec fn cur(&self) -> TokenView {
        self.current@
    }

    /// The token one ahead.
    pub closed spec fn nxt(&self) -> TokenView {
        self.next@
    }

    /// Internal consistency: the window holds exactly the two tokens that
    /// the input yields from the recorded positions, in order.
    pub closed spec fn wf(&self) -> bool {
        &&& self.lexer.wf()
        &&& pos_wf(self.cur_start@, self.input_seq().len())
        &&& pos_wf(self.next_start@, self.input_seq().len())
        &&& spec_next(self.input_seq(), self.cur_start@) == (LexStep::Tok {
            token: self.current@,
            next: self.next_start@,
        })
        &&& spec_next(self.input_seq(), self.next_start@) == (LexStep::Tok {
            token: self.next@,
            next: self.lexer.pos(),
        })
    }

    /// The cursor position the current token was read from.
    pub closed spec fn cur_at(&self) -> Position {
        self.cur_start@
    }

    /// The cursor position the lookahead token was read from.
    pub closed spec fn nxt_at(&self) -> Position {
        self.next_start@
    }

    /// The cursor position the next window refill will read from: just past
    /// the lookahead token.
    pub closed spec fn fill_at(&self) -> Position {
        self.lexer.pos()
    }

    /// How much input is still ahead of the current token: the termination
    /// measure of the recursive descent.
    pub closed spec fn measure(&self) -> int {
        self.input_seq().len() - self.cur_start@.index
    }

    /// A parser over `input`, with the window filled; a lexical fault in the
    /// first two tokens surfaces at once.
    pub fn new(input: &str) -> (r: Result<Parser, ParseError>)
        requires
            input@.len() < usize::MAX,
        ensures
            r matches Ok(p) ==> p.wf() && p.input_seq() == input@ && p.cur_at() == (Position {
                index: 0,
                line: 1,
                column: 1,
            }),
            ({
                let origin = Position { index: 0, line: 1, column: 1 };
                match spec_next(input@, origin) {
                    LexStep::Fail { error, next } => r == Err::<Parser, ParseError>(
                        ParseError::Lexical(error),
                    ),
                    LexStep::Tok { token: t1, next: n1 } => match spec_next(input@, n1) {
                        LexStep::Fail { error, next } => r == Err::<Parser, ParseError>(
                            ParseError::Lexical(error),
                        ),
                        LexStep::Tok { token: t2, next: n2 } => r matches Ok(p) && p.cur() == t1
                            && p.nxt() == t2,
                    },
                }
            }),
    {
        let mut lexer = Lexer::new(str_to_chars(input));
        let ghost p0 = lexer.pos();
        let current = match lexer.consume() {
            Ok(t) => t,
            Err(e) => {
                return Err(ParseError::Lexical(e));
            },
        };
        let ghost p1 = lexer.pos();
        let next = match lexer.consume() {
            Ok(t) => t,
            Err(e) => {
                return Err(ParseError::Lexical(e));
            },
        };
        proof {
            lemma_next_props(input@, p0);
        }
        Ok(
            Parser {
                lexer,
                current,
                next,
                cur_start: Ghost(p0),
                next_start: Ghost(p1),
            },
        )
    }

    /// Shift the window one token: the lookahead becomes current and a fresh
    /// token is pulled.
    fn advance(&mut self) -> (r: Result<(), LexError>)
        requires
            old(self).wf(),
        ensures
            final(self).input_seq() == old(self).input_seq(),
            final(self).measure() <= old(self).measure(),
            r matches Ok(()) ==> {
                &&& final(self).wf()
                &&& final(self).current == old(self).next
                &&& final(self).cur() == old(self).nxt()
                &&& final(self).cur_at() == old(self).nxt_at()
                &&& (!(old(self).cur().token_type is EOF) ==> final(self).measure() < old(
                    self,
                ).measure())
            },
            r matches Err(e) ==> {
                &&& final(self).current == old(self).current
                &&& final(self).next == old(self).next
                &&& final(self).cur_at() == old(self).cur_at()
                &&& final(self).nxt_at() == old(self).nxt_at()
                &&& (spec_next(old(self).input_seq(), old(self).lexer.pos()) matches
                LexStep::Fail { error, next } && error == e)
            },
    {
        let ghost pre = self.lexer.pos();
        proof {
            lemma_next_props(self.input_seq(), self.cur_start@);
            lemma_next_props(self.input_seq(), self.next_start@);
        }
        match self.lexer.consume() {
            Ok(t) => {
                core::mem::swap(&mut self.current, &mut self.next);
                self.next = t;
                proof {
                    self.cur_start@ = self.next_start@;
                    self.next_start@ = pre;
                }
                Ok(())
            },
            Err(e) => Err(e),
        }
    }
}

impl Parser {
    /// Hold the current token against a required shape; a mismatch is a
    /// structured syntax error carrying what was expected, what stands
    /// there, and where.
    fn expect(&self, expected: TokenKind) -> (r: Result<(), ParseError>)
        ensures
            (r matches Ok(())) <==> kind_of(self.cur().token_type) == expected,
            r matches Err(e) ==> e == (ParseError::UnexpectedToken {
                expected,
                found: kind_of(self.cur().token_type),
                position: self.cur().position,
            }),
    {
        let found = token_kind(&self.current.token_type);
        if found == expected {
            Ok(())
        } else {
            Err(
                ParseError::UnexpectedToken {
                    expected,
                    found,
                    position: self.current.position,
                },
            )
        }
    }

    /// As `expect`, on the lookahead token.
    fn expect_next(&self, expected: TokenKind) -> (r: Result<(), ParseError>)
        ensures
            (r matches Ok(())) <==> kind_of(self.nxt().token_type) == expected,
            r matches Err(e) ==> e == (ParseError::UnexpectedToken {
                expected,
                found: kind_of(self.nxt().token_type),
                position: self.nxt().position,
            }),
    {
        let found = token_kind(&self.next.token_type);
        if found == expected {
            Ok(())
        } else {
            Err(
                ParseError::UnexpectedToken {
                    expected,
                    found,
                    position: self.next.position,
                },
            )
        }
    }

    /// Parse the whole input: statement-expressions until `EOF`, collected
    /// in textual order.  A statement that cannot be parsed is a syntax
    /// error, never silently skipped.
    pub fn parse(&mut self) -> (r: Result<Block, ParseError>)
        requires
            old(self).wf(),
        ensures
            final(self).input_seq() == old(self).input_seq(),
            r matches Ok(_) ==> final(self).wf() && final(self).cur().token_type is EOF,
            r matches Ok(b) ==> stmts_walk(
                old(self).input_seq(),
                b.statements@,
                old(self).cur_at(),
                ParseContext::TopLevel,
            ) == Some(final(self).cur_at()),
            old(self).cur().token_type is EOF ==> (r matches Ok(b) && b.statements@.len()
                == 0),
            plain_leaf(old(self).cur().token_type, old(self).nxt().token_type) && old(
                self,
            ).nxt().token_type is EOF && token_op(old(self).nxt().token_type) is None ==> r is Ok,
    {
        let ghost s = self.input_seq();
        let ghost p0 = self.cur_at();
        let mut statements: Vec<Expression> = Vec::new();
        let ghost eof_at_entry = self.cur().token_type is EOF;
        let ghost single_leaf = plain_leaf(self.cur().token_type, self.nxt().token_type)
            && self.nxt().token_type is EOF;
        proof {
            if single_leaf {
                lemma_next_props(s, self.nxt_at());
            }
        }
        loop
            invariant
                self.wf(),
                self.input_seq() == old(self).input_seq(),
                self.input_seq() == s,
                eof_at_entry == (old(self).cur().token_type is EOF),
                eof_at_entry ==> self.cur().token_type is EOF,
                eof_at_entry ==> statements@.len() == 0,
                single_leaf == (plain_leaf(old(self).cur().token_type, old(self).nxt().token_type)
                    && old(self).nxt().token_type is EOF),
                single_leaf ==> old(self).wf() && leaf_ready(*old(self)) && token_op(
                    old(self).nxt().token_type,
                ) is None,
                single_leaf ==> (*self == *old(self)) || self.cur().token_type is EOF,
                stmts_walk(s, statements@, p0, ParseContext::TopLevel) == Some(self.cur_at()),
            ensures
                self.wf(),
                self.input_seq() == old(self).input_seq(),
                self.cur().token_type is EOF,
                eof_at_entry ==> statements@.len() == 0,
                stmts_walk(s, statements@, p0, ParseContext::TopLevel) == Some(self.cur_at()),
            decreases self.measure(),
        {
            if token_kind(&self.current.token_type) == TokenKind::EOF {
                break;
            }
            match self.parse_expression(ParseContext::TopLevel) {
                Ok(statement) => {
                    proof {
                        lemma_stmts_walk_push(
                            s,
                            statements@,
                            statement,
                            p0,
                            ParseContext::TopLevel,
                        );
                    }
                    statements.push(statement);
                },
                Err(e) => {
                    return Err(e);
                },
            }
        }
        Ok(Block { statements })
    }

    /// Parse one expression: the alternatives are tried in fixed order —
    /// `if`, assignment, then the operator grammar over calls and leaves —
    /// each committed from lookahead alone, before any token is consumed.
    fn parse_expression(&mut self, ctx: ParseContext) -> (r: Result<Expression, ParseError>)
        requires
            old(self).wf(),
        ensures
            final(self).input_seq() == old(self).input_seq(),
            final(self).measure() <= old(self).measure(),
            r matches Ok(_) ==> final(self).wf() && final(self).measure() < old(self).measure(),
            r matches Ok(e2) ==> expr_end(old(self).input_seq(), e2, old(self).cur_at(), ctx, 0)
                == Some(final(self).cur_at()),
            !opens_expression(old(self).cur().token_type) ==> r == Err::<Expression, ParseError>(
                ParseError::ExpectedExpression {
                    found: kind_of(old(self).cur().token_type),
                    position: old(self).cur().position,
                },
            ) && *final(self) == *old(self),
            old(self).cur().token_type == TokenTypeView::Keyword(Keyword::If) ==> (r matches Ok(
                e,
            ) ==> e is If),
            old(self).cur().token_type is Identifier && old(self).nxt().token_type
                == TokenTypeView::Symbol(Symbol::Equals) ==> (r matches Ok(e) ==> (e matches
            Expression::Assignment(a) && a.identifier@ == old(
                self,
            ).cur().token_type->Identifier_0)),
            leaf_ready(*old(self)) && token_op(old(self).nxt().token_type) is None ==> r is Ok
                && final(self).cur_at() == old(self).nxt_at(),
        decreases self.measure(), 6int,
    {
        let kind = token_kind(&self.current.token_type);
        if kind == TokenKind::Keyword(Keyword::If) {
            self.parse_if(ctx)
        } else if kind == TokenKind::Identifier && token_kind(&self.next.token_type)
            == TokenKind::Symbol(Symbol::Equals) {
            self.parse_assignment(ctx)
        } else {
            self.parse_comparison(ctx)
        }
    }

    /// Parse `if condition, then-block` with an optional `else, else-block`.
    /// The condition is nested context; the blocks keep the surrounding one.
    fn parse_if(&mut self, ctx: ParseContext) -> (r: Result<Expression, ParseError>)
        requires
            old(self).wf(),
            old(self).cur().token_type == TokenTypeView::Keyword(Keyword::If),
        ensures
            final(self).input_seq() == old(self).input_seq(),
            final(self).measure() <= old(self).measure(),
            r matches Ok(e) ==> final(self).wf() && final(self).measure() < old(self).measure()
                && e is If,
            r matches Ok(e2) ==> expr_end(old(self).input_seq(), e2, old(self).cur_at(), ctx, 0)
                == Some(final(self).cur_at()),
        decreases self.measure(), 1int,
    {
        match self.advance() {
            Err(e) => {
                return Err(ParseError::Lexical(e));
            },
            Ok(()) => {},
        }
        let condition = match self.parse_expression(ParseContext::Nested) {
            Ok(c) => c,
            Err(e) => {
                return Err(e);
            },
        };
        match self.expect(TokenKind::Symbol(Symbol::Comma)) {
            Err(e) => {
                return Err(e);
            },
            Ok(()) => {},
        }
        match self.advance() {
            Err(e) => {
                return Err(ParseError::Lexical(e));
            },
            Ok(()) => {},
        }
        let then_block = match self.parse_block(ctx) {
            Ok(b) => b,
            Err(e) => {
                return Err(e);
            },
        };
        let else_block = if token_kind(&self.current.token_type) == TokenKind::Keyword(
            Keyword::Else,
        ) {
            match self.advance() {
                Err(e) => {
                    return Err(ParseError::Lexical(e));
                },
                Ok(()) => {},
            }
            match self.expect(TokenKind::Symbol(Symbol::Comma)) {
                Err(e) => {
                    return Err(e);
                },
                Ok(()) => {},
            }
            match self.advance() {
                Err(e) => {
                    return Err(ParseError::Lexical(e));
                },
                Ok(()) => {},
            }
            match self.parse_block(ctx) {
                Ok(b) => Some(b),
                Err(e) => {
                    return Err(e);
                },
            }
        } else {
            None
        };
        Ok(
            Expression::If(
                If { condition: Box::new(condition), then_block, else_block },
            ),
        )
    }

    /// Parse `identifier = value`; the right-hand side switches to nested
    /// context, for itself and everything within it.
    fn parse_assignment(&mut self, ctx: ParseContext) -> (r: Result<Expression, ParseError>)
        requires
            old(self).wf(),
            old(self).cur().token_type is Identifier,
            old(self).nxt().token_type == TokenTypeView::Symbol(Symbol::Equals),
        ensures
            final(self).input_seq() == old(self).input_seq(),
            final(self).measure() <= old(self).measure(),
            r matches Ok(e) ==> final(self).wf() && final(self).measure() < old(self).measure()
                && (e matches Expression::Assignment(a) && a.identifier@ == old(
                self,
            ).cur().token_type->Identifier_0),
            r matches Ok(e2) ==> expr_end(old(self).input_seq(), e2, old(self).cur_at(), ctx, 0)
                == Some(final(self).cur_at()),
            leaf_ahead(*old(self)) ==> r is Ok,
        decreases self.measure(), 1int,
    {
        let identifier = if let TokenType::Identifier(name) = &self.current.token_type {
            name.clone()
        } else {
            return vstd::pervasive::unreached();
        };
        match self.advance() {
            Err(e) => {
                return Err(ParseError::Lexical(e));
            },
            Ok(()) => {},
        }
        match self.advance() {
            Err(e) => {
                return Err(ParseError::Lexical(e));
            },
            Ok(()) => {},
        }
        let value = match self.parse_expression(ParseContext::Nested) {
            Ok(v) => v,
            Err(e) => {
                return Err(e);
            },
        };
        Ok(Expression::Assignment(Assignment { identifier, value: Box::new(value) }))
    }

    /// Parse statement-expressions until `.` or `EOF`, then consume the `.`
    /// if it stands there.  A statement that cannot be parsed is a syntax
    /// error, never a silent stop.
    fn parse_block(&mut self, ctx: ParseContext) -> (r: Result<Block, ParseError>)
        requires
            old(self).wf(),
        ensures
            final(self).input_seq() == old(self).input_seq(),
            final(self).measure() <= old(self).measure(),
            r matches Ok(_) ==> final(self).wf(),
            r matches Ok(b) ==> block_end(old(self).input_seq(), b, old(self).cur_at(), ctx)
                == Some(final(self).cur_at()),
            old(self).cur().token_type is EOF ==> (r matches Ok(b) && b.statements@.len() == 0
                && *final(self) == *old(self)),
            kind_of(old(self).cur().token_type) == TokenKind::Symbol(Symbol::Dot) && !(spec_next(
                old(self).input_seq(),
                old(self).fill_at(),
            ) is Fail) ==> (r matches Ok(b) && b.statements@.len() == 0),
        decreases self.measure(), 7int,
    {
        let ghost s = self.input_seq();
        let ghost p0 = self.cur_at();
        let ghost trivial_entry = self.cur().token_type is EOF || kind_of(self.cur().token_type)
            == TokenKind::Symbol(Symbol::Dot);
        let mut statements: Vec<Expression> = Vec::new();
        loop
            invariant
                self.wf(),
                self.input_seq() == old(self).input_seq(),
                self.input_seq() == s,
                self.measure() <= old(self).measure(),
                stmts_walk(s, statements@, p0, ctx) == Some(self.cur_at()),
                trivial_entry == (old(self).cur().token_type is EOF || kind_of(
                    old(self).cur().token_type,
                ) == TokenKind::Symbol(Symbol::Dot)),
                trivial_entry ==> statements@.len() == 0 && *self == *old(self),
            ensures
                self.wf(),
                self.input_seq() == old(self).input_seq(),
                self.input_seq() == s,
                self.measure() <= old(self).measure(),
                stmts_walk(s, statements@, p0, ctx) == Some(self.cur_at()),
                kind_of(self.cur().token_type) == TokenKind::Symbol(Symbol::Dot) || kind_of(
                    self.cur().token_type,
                ) == TokenKind::EOF,
                trivial_entry ==> statements@.len() == 0 && *self == *old(self),
            decreases self.measure(),
        {
            let kind = token_kind(&self.current.token_type);
            if kind == TokenKind::Symbol(Symbol::Dot) || kind == TokenKind::EOF {
                break;
            }
            match self.parse_expression(ctx) {
                Ok(statement) => {
                    proof {
                        lemma_stmts_walk_push(s, statements@, statement, p0, ctx);
                    }
                    statements.push(statement);
                },
                Err(e) => {
                    return Err(e);
                },
            }
        }
        if token_kind(&self.current.token_type) == TokenKind::Symbol(Symbol::Dot) {
            match self.advance() {
                Err(e) => {
                    return Err(ParseError::Lexical(e));
                },
                Ok(()) => {},
            }
        }
        Ok(Block { statements })
    }

    /// Parse a call.  The callee identifier stands under the window and the
    /// lookahead opens an argument list.  Parentheses are consumed where
    /// they stand; without them, a bare comma-separated argument list is
    /// taken at top level, and a syntax error raised in nested context.
    fn parse_call(&mut self, ctx: ParseContext) -> (r: Result<Expression, ParseError>)
        requires
            old(self).wf(),
            old(self).cur().token_type is Identifier,
            call_candidate(old(self).nxt().token_type),
        ensures
            final(self).input_seq() == old(self).input_seq(),
            final(self).measure() <= old(self).measure(),
            r matches Ok(e) ==> final(self).wf() && final(self).measure() < old(self).measure()
                && (e matches Expression::Call(c) && c.callee@ == old(
                self,
            ).cur().token_type->Identifier_0),
            r matches Ok(e2) ==> expr_end(old(self).input_seq(), e2, old(self).cur_at(), ctx, 4)
                == Some(final(self).cur_at()),
            ctx == ParseContext::Nested && old(self).nxt().token_type != TokenTypeView::Symbol(
                Symbol::LParen,
            ) ==> (r matches Err(e) && (e is Lexical || e == (ParseError::UnexpectedToken {
                expected: TokenKind::Symbol(Symbol::LParen),
                found: kind_of(old(self).nxt().token_type),
                position: old(self).nxt().position,
            }))),
            empty_call_ready(*old(self)) ==> r is Ok,
        decreases self.measure(), 1int,
    {
        let ghost s = self.input_seq();
        let ghost empty_call = empty_call_ready(*self);
        let callee = if let TokenType::Identifier(name) = &self.current.token_type {
            name.clone()
        } else {
            return vstd::pervasive::unreached();
        };
        let parenthesized = match self.expect_next(TokenKind::Symbol(Symbol::LParen)) {
            Ok(()) => true,
            Err(_) => false,
        };
        match self.advance() {
            Err(e) => {
                return Err(ParseError::Lexical(e));
            },
            Ok(()) => {},
        }
        let ghost p1 = self.cur_at();
        let mut arguments: Vec<Expression> = Vec::new();
        if parenthesized {
            match self.advance() {
                Err(e) => {
                    return Err(ParseError::Lexical(e));
                },
                Ok(()) => {},
            }
            let ghost p2 = self.cur_at();
            let ghost snap = *self;
            loop
                invariant_except_break
                    arguments@.len() == 0 ==> self.cur_at() == p2,
                    arguments@.len() > 0 ==> post_comma_state(s, arguments@, p2, self.cur_at()),
                invariant
                    self.wf(),
                    self.input_seq() == old(self).input_seq(),
                    self.input_seq() == s,
                    self.measure() < old(self).measure(),
                    old(self).nxt().token_type == TokenTypeView::Symbol(Symbol::LParen),
                    empty_call == empty_call_ready(*old(self)),
                    empty_call ==> *self == snap && arguments@.len() == 0,
                    empty_call ==> snap.wf() && snap.cur().token_type == TokenTypeView::Symbol(
                        Symbol::RParen,
                    ) && !(spec_next(s, snap.fill_at()) is Fail),
                ensures
                    self.wf(),
                    self.input_seq() == old(self).input_seq(),
                    self.input_seq() == s,
                    self.measure() < old(self).measure(),
                    args_walk(s, arguments@, p2) == Some(self.cur_at()) || (arguments@.len() > 0
                        && post_comma_state(s, arguments@, p2, self.cur_at())),
                    empty_call ==> *self == snap && arguments@.len() == 0,
                    empty_call ==> snap.cur().token_type == TokenTypeView::Symbol(Symbol::RParen)
                        && !(spec_next(s, snap.fill_at()) is Fail),
                decreases self.measure(),
            {
                if token_kind(&self.current.token_type) == TokenKind::Symbol(Symbol::RParen) {
                    break;
                }
                let argument = match self.parse_expression(ParseContext::Nested) {
                    Ok(a) => a,
                    Err(e) => {
                        return Err(e);
                    },
                };
                proof {
                    lemma_args_walk_push(s, arguments@, argument, p2);
                }
                arguments.push(argument);
                proof {
                    assert(args_walk(s, arguments@, p2) == Some(self.cur_at()));
                }
                if token_kind(&self.current.token_type) == TokenKind::Symbol(Symbol::Comma) {
                    match self.advance() {
                        Err(e) => {
                            return Err(ParseError::Lexical(e));
                        },
                        Ok(()) => {},
                    }
                } else {
                    break;
                }
            }
            match self.expect(TokenKind::Symbol(Symbol::RParen)) {
                Err(e) => {
                    return Err(e);
                },
                Ok(()) => {},
            }
            match self.advance() {
                Err(e) => {
                    return Err(ParseError::Lexical(e));
                },
                Ok(()) => {},
            }
            Ok(Expression::Call(Call { callee, arguments }))
        } else if ctx == ParseContext::Nested {
            // parentheses are mandatory once nested
            Err(
                ParseError::UnexpectedToken {
                    expected: TokenKind::Symbol(Symbol::LParen),
                    found: token_kind(&self.current.token_type),
                    position: self.current.position,
                },
            )
        } else {
            loop
                invariant_except_break
                    arguments@.len() == 0 ==> self.cur_at() == p1,
                    arguments@.len() > 0 ==> post_comma_state(s, arguments@, p1, self.cur_at()),
                invariant
                    self.wf(),
                    self.input_seq() == old(self).input_seq(),
                    self.input_seq() == s,
                    self.measure() < old(self).measure(),
                    ctx == ParseContext::TopLevel,
                    !empty_call_ready(*old(self)),
                ensures
                    self.wf(),
                    self.input_seq() == old(self).input_seq(),
                    self.input_seq() == s,
                    self.measure() < old(self).measure(),
                    arguments@.len() > 0,
                    args_walk(s, arguments@, p1) == Some(self.cur_at()),
                    kind_of(self.cur().token_type) != TokenKind::Symbol(Symbol::Comma),
                decreases self.measure(),
            {
                let argument = match self.parse_expression(ParseContext::Nested) {
                    Ok(a) => a,
                    Err(e) => {
                        return Err(e);
                    },
                };
                proof {
                    lemma_args_walk_push(s, arguments@, argument, p1);
                }
                arguments.push(argument);
                proof {
                    assert(args_walk(s, arguments@, p1) == Some(self.cur_at()));
                }
                if token_kind(&self.current.token_type) == TokenKind::Symbol(Symbol::Comma) {
                    match self.advance() {
                        Err(e) => {
                            return Err(ParseError::Lexical(e));
                        },
                        Ok(()) => {},
                    }
                } else {
                    break;
                }
            }
            Ok(Expression::Call(Call { callee, arguments }))
        }
    }

    /// Parse one operand of the operator grammar: a call where the lookahead
    /// opens an argument list, a bare leaf otherwise.
    fn parse_operand(&mut self, ctx: ParseContext) -> (r: Result<Expression, ParseError>)
        requires
            old(self).wf(),
        ensures
            final(self).input_seq() == old(self).input_seq(),
            final(self).measure() <= old(self).measure(),
            r matches Ok(_) ==> final(self).wf() && final(self).measure() < old(self).measure(),
            r matches Ok(e2) ==> expr_end(old(self).input_seq(), e2, old(self).cur_at(), ctx, 4)
                == Some(final(self).cur_at()),
            !starts_argument(old(self).cur().token_type) ==> r == Err::<Expression, ParseError>(
                ParseError::ExpectedExpression {
                    found: kind_of(old(self).cur().token_type),
                    position: old(self).cur().position,
                },
            ) && *final(self) == *old(self),
            leaf_ready(*old(self)) ==> r is Ok && final(self).cur_at() == old(self).nxt_at(),
        decreases self.measure(), 2int,
    {
        let next_kind = token_kind(&self.next.token_type);
        let candidate = next_kind == TokenKind::Symbol(Symbol::LParen) || next_kind
            == TokenKind::Identifier || next_kind == TokenKind::Integer || next_kind
            == TokenKind::Float;
        if token_kind(&self.current.token_type) == TokenKind::Identifier && candidate {
            self.parse_call(ctx)
        } else {
            self.parse_primary()
        }
    }

    /// Parse a leaf: a bare identifier, integer or float token.  Any other
    /// token opens no expression and is reported as such.
    fn parse_primary(&mut self) -> (r: Result<Expression, ParseError>)
        requires
            old(self).wf(),
        ensures
            final(self).input_seq() == old(self).input_seq(),
            final(self).measure() <= old(self).measure(),
            r matches Ok(_) ==> final(self).wf() && final(self).measure() < old(self).measure(),
            r matches Ok(e2) ==> expr_end(
                old(self).input_seq(),
                e2,
                old(self).cur_at(),
                ParseContext::TopLevel,
                4,
            ) == Some(final(self).cur_at()) && expr_end(
                old(self).input_seq(),
                e2,
                old(self).cur_at(),
                ParseContext::Nested,
                4,
            ) == Some(final(self).cur_at()),
            match old(self).cur().token_type {
                TokenTypeView::Identifier(name) => refill_fault(old(self), r) || (r matches Ok(e)
                    && e matches Expression::Identifier(n) && n@ == name),
                TokenTypeView::Integer(value) => refill_fault(old(self), r) || (r matches Ok(e)
                    && e matches Expression::Integer(n) && n as int == value),
                TokenTypeView::Float(text) => refill_fault(old(self), r) || (r matches Ok(e) && e
                    matches Expression::Float(t) && t@ == text),
                _ => r == Err::<Expression, ParseError>(
                    ParseError::ExpectedExpression {
                        found: kind_of(old(self).cur().token_type),
                        position: old(self).cur().position,
                    },
                ) && *final(self) == *old(self),
            },
    {
        match &self.current.token_type {
            TokenType::Identifier(name) => {
                let name = name.clone();
                match self.advance() {
                    Err(e) => Err(ParseError::Lexical(e)),
                    Ok(()) => Ok(Expression::Identifier(name)),
                }
            },
            TokenType::Integer(value) => {
                let value = *value;
                match self.advance() {
                    Err(e) => Err(ParseError::Lexical(e)),
                    Ok(()) => Ok(Expression::Integer(value)),
                }
            },
            TokenType::Float(text) => {
                let text = text.clone();
                match self.advance() {
                    Err(e) => Err(ParseError::Lexical(e)),
                    Ok(()) => Ok(Expression::Float(text)),
                }
            },
            _ => Err(
                ParseError::ExpectedExpression {
                    found: token_kind(&self.current.token_type),
                    position: self.current.position,
                },
            ),
        }
    }

    /// Parse the comparison level: additive operands joined left to right by
    /// `==`, `!=`, `>`, `>=`, `<`, `<=`.
    fn parse_comparison(&mut self, ctx: ParseContext) -> (r: Result<Expression, ParseError>)
        requires
            old(self).wf(),
        ensures
            final(self).input_seq() == old(self).input_seq(),
            final(self).measure() <= old(self).measure(),
            r matches Ok(_) ==> final(self).wf() && final(self).measure() < old(self).measure(),
            r matches Ok(e2) ==> expr_end(old(self).input_seq(), e2, old(self).cur_at(), ctx, 1)
                == Some(final(self).cur_at()),
            !starts_argument(old(self).cur().token_type) ==> r == Err::<Expression, ParseError>(
                ParseError::ExpectedExpression {
                    found: kind_of(old(self).cur().token_type),
                    position: old(self).cur().position,
                },
            ) && *final(self) == *old(self),
            leaf_ready(*old(self)) && token_op(old(self).nxt().token_type) is None ==> r is Ok && final(self).cur_at() == old(
                self,
            ).nxt_at(),
        decreases self.measure(), 5int,
    {
        let mut left = match self.parse_additive(ctx) {
            Ok(e) => e,
            Err(e) => {
                return Err(e);
            },
        };
        let ghost leaf_hyp = leaf_ready(*old(self)) && token_op(
            old(self).nxt().token_type,
        ) is None;
        loop
            invariant
                self.wf(),
                self.input_seq() == old(self).input_seq(),
                self.measure() < old(self).measure(),
                starts_argument(old(self).cur().token_type),
                expr_end(self.input_seq(), left, old(self).cur_at(), ctx, 1) == Some(self.cur_at()),
                leaf_hyp == (leaf_ready(*old(self)) && token_op(old(self).nxt().token_type) is None),
                leaf_hyp ==> old(self).wf() && self.cur_at() == old(self).nxt_at(),
            ensures
                self.wf(),
                self.input_seq() == old(self).input_seq(),
                self.measure() < old(self).measure(),
                expr_end(self.input_seq(), left, old(self).cur_at(), ctx, 1) == Some(self.cur_at()),
                leaf_hyp ==> self.cur_at() == old(self).nxt_at(),
            decreases self.measure(),
        {
            let operator = match &self.current.token_type {
                TokenType::Symbol(sym) => match sym {
                    Symbol::DoubleEquals => InfixOp::map_operator(*sym),
                    Symbol::NotEquals => InfixOp::map_operator(*sym),
                    Symbol::GreaterThan => InfixOp::map_operator(*sym),
                    Symbol::GreaterEquals => InfixOp::map_operator(*sym),
                    Symbol::LessThan => InfixOp::map_operator(*sym),
                    Symbol::LessEquals => InfixOp::map_operator(*sym),
                    _ => None,
                },
                _ => None,
            };
            let operator = match operator {
                Some(op) => op,
                None => {
                    break;
                },
            };
            match self.advance() {
                Err(e) => {
                    return Err(ParseError::Lexical(e));
                },
                Ok(()) => {},
            }
            let right = match self.parse_additive(ctx) {
                Ok(e) => e,
                Err(e) => {
                    return Err(e);
                },
            };
            left = Expression::Infix(
                Infix { left: Box::new(left), operator, right: Box::new(right) },
            );
        }
        Ok(left)
    }

    /// Parse the additive level: multiplicative operands joined left to
    /// right by `+` and `-`.
    fn parse_additive(&mut self, ctx: ParseContext) -> (r: Result<Expression, ParseError>)
        requires
            old(self).wf(),
        ensures
            final(self).input_seq() == old(self).input_seq(),
            final(self).measure() <= old(self).measure(),
            r matches Ok(_) ==> final(self).wf() && final(self).measure() < old(self).measure(),
            r matches Ok(e2) ==> expr_end(old(self).input_seq(), e2, old(self).cur_at(), ctx, 2)
                == Some(final(self).cur_at()),
            !starts_argument(old(self).cur().token_type) ==> r == Err::<Expression, ParseError>(
                ParseError::ExpectedExpression {
                    found: kind_of(old(self).cur().token_type),
                    position: old(self).cur().position,
                },
            ) && *final(self) == *old(self),
            leaf_ready(*old(self)) && no_op_at_level(old(self).nxt().token_type, 3)
                && no_op_at_level(old(self).nxt().token_type, 2) ==> r is Ok && final(self).cur_at() == old(
                self,
            ).nxt_at(),
        decreases self.measure(), 4int,
    {
        let mut left = match self.parse_multiplicative(ctx) {
            Ok(e) => e,
            Err(e) => {
                return Err(e);
            },
        };
        let ghost leaf_hyp = leaf_ready(*old(self)) && no_op_at_level(
            old(self).nxt().token_type,
            3,
        ) && no_op_at_level(old(self).nxt().token_type, 2);
        loop
            invariant
                self.wf(),
                self.input_seq() == old(self).input_seq(),
                self.measure() < old(self).measure(),
                starts_argument(old(self).cur().token_type),
                expr_end(self.input_seq(), left, old(self).cur_at(), ctx, 2) == Some(self.cur_at()),
                leaf_hyp == (leaf_ready(*old(self)) && no_op_at_level(old(self).nxt().token_type, 3)
                && no_op_at_level(old(self).nxt().token_type, 2)),
                leaf_hyp ==> old(self).wf() && self.cur_at() == old(self).nxt_at(),
            ensures
                self.wf(),
                self.input_seq() == old(self).input_seq(),
                self.measure() < old(self).measure(),
                expr_end(self.input_seq(), left, old(self).cur_at(), ctx, 2) == Some(self.cur_at()),
                leaf_hyp ==> self.cur_at() == old(self).nxt_at(),
            decreases self.measure(),
        {
            let operator = match &self.current.token_type {
                TokenType::Symbol(sym) => match sym {
                    Symbol::Plus => InfixOp::map_operator(*sym),
                    Symbol::Minus => InfixOp::map_operator(*sym),
                    _ => None,
                },
                _ => None,
            };
            let operator = match operator {
                Some(op) => op,
                None => {
                    break;
                },
            };
            match self.advance() {
                Err(e) => {
                    return Err(ParseError::Lexical(e));
                },
                Ok(()) => {},
            }
            let right = match self.parse_multiplicative(ctx) {
                Ok(e) => e,
                Err(e) => {
                    return Err(e);
                },
            };
            left = Expression::Infix(
                Infix { left: Box::new(left), operator, right: Box::new(right) },
            );
        }
        Ok(left)
    }

    /// Parse the multiplicative level: operands joined left to right by `*`
    /// and `/`.
    fn parse_multiplicative(&mut self, ctx: ParseContext) -> (r: Result<Expression, ParseError>)
        requires
            old(self).wf(),
        ensures
            final(self).input_seq() == old(self).input_seq(),
            final(self).measure() <= old(self).measure(),
            r matches Ok(_) ==> final(self).wf() && final(self).measure() < old(self).measure(),
            r matches Ok(e2) ==> expr_end(old(self).input_seq(), e2, old(self).cur_at(), ctx, 3)
                == Some(final(self).cur_at()),
            !starts_argument(old(self).cur().token_type) ==> r == Err::<Expression, ParseError>(
                ParseError::ExpectedExpression {
                    found: kind_of(old(self).cur().token_type),
                    position: old(self).cur().position,
                },
            ) && *final(self) == *old(self),
            leaf_ready(*old(self)) && no_op_at_level(old(self).nxt().token_type, 3) ==> r is Ok && final(self).cur_at() == old(
                self,
            ).nxt_at(),
        decreases self.measure(), 3int,
    {
        let mut left = match self.parse_operand(ctx) {
            Ok(e) => e,
            Err(e) => {
                return Err(e);
            },
        };
        let ghost leaf_hyp = leaf_ready(*old(self)) && no_op_at_level(
            old(self).nxt().token_type,
            3,
        );
        loop
            invariant
                self.wf(),
                self.input_seq() == old(self).input_seq(),
                self.measure() < old(self).measure(),
                starts_argument(old(self).cur().token_type),
                expr_end(self.input_seq(), left, old(self).cur_at(), ctx, 3) == Some(self.cur_at()),
                leaf_hyp == (leaf_ready(*old(self)) && no_op_at_level(old(self).nxt().token_type, 3)),
                leaf_hyp ==> old(self).wf() && self.cur_at() == old(self).nxt_at(),
            ensures
                self.wf(),
                self.input_seq() == old(self).input_seq(),
                self.measure() < old(self).measure(),
                expr_end(self.input_seq(), left, old(self).cur_at(), ctx, 3) == Some(self.cur_at()),
                leaf_hyp ==> self.cur_at() == old(self).nxt_at(),
            decreases self.measure(),
        {
            let operator = match &self.current.token_type {
                TokenType::Symbol(sym) => match sym {
                    Symbol::Star => InfixOp::map_operator(*sym),
                    Symbol::Slash => InfixOp::map_operator(*sym),
                    _ => None,
                },
                _ => None,
            };
            let operator = match operator {
                Some(op) => op,
                None => {
                    break;
                },
            };
            match self.advance() {
                Err(e) => {
                    return Err(ParseError::Lexical(e));
                },
                Ok(()) => {},
            }
            let right = match self.parse_operand(ctx) {
                Ok(e) => e,
                Err(e) => {
                    return Err(e);
                },
            };
            left = Expression::Infix(
                Infix { left: Box::new(left), operator, right: Box::new(right) },
            );
        }
        Ok(left)
    }
}

/// Relies on str::chars: the characters of the string, in order.
#[verifier::external_body]
fn str_to_chars(s: &str) -> (v: Vec<char>)
    ensures
        v@ == s@,
{
    s.chars().collect()
}

} // verus!

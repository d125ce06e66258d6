//! Recursive-descent parser for `SELECT` statements, with two tokens of
//! lookahead.
use crate::ast::{exprs_view, Expr, ExprV, Join, JoinKind, JoinV, OrderDir, Select, SelectV};
use crate::lexer::{lemma_lex_step, token_stream, Lexer};
use crate::token::{Token, TokenV};
use vstd::prelude::*;

verus! {

/// Why a statement could not be parsed.
#[derive(Debug, Clone, Copy, PartialEq, Eq, Structural)]
pub enum ParseError {
    ExpectedSelect,
    ExpectedFrom,
    ExpectedTableName,
    ExpectedColumnName,
    ExpectedJoinTable,
    ExpectedLimitInteger,
    ExpectedFunction,
    ExpectedBy,
    ExpectedLParen,
    ExpectedRParen,
    ExpectedJoin,
    ExpectedOn,
    UnexpectedToken,
    /// The lexer met a numeric literal that is no number.
    InvalidNumber,
}

/// A parse step's outcome: what it read, or why it failed, and the index of
/// the current token afterwards.
pub type Step<T> = (Result<T, ParseError>, int);

/// The token at index `k`, if the tokens reach that far.
pub open spec fn cur(ts: Seq<TokenV>, k: int) -> Option<TokenV> {
    if 0 <= k < ts.len() {
        Some(ts[k])
    } else {
        None
    }
}

pub open spec fn is_sym(ts: Seq<TokenV>, k: int, t: Token) -> bool {
    cur(ts, k) == Some(TokenV::Sym(t))
}

/// Skips the token `t` where it is current.
pub open spec fn skip_sym(ts: Seq<TokenV>, k: int, t: Token) -> int {
    if is_sym(ts, k, t) {
        k + 1
    } else {
        k
    }
}

/// The text of a comparison operator.
pub open spec fn cmp_op(t: Option<TokenV>) -> Option<Seq<char>> {
    match t {
        Some(TokenV::Sym(Token::Eq)) => Some(seq!['=']),
        Some(TokenV::Sym(Token::Neq)) => Some(seq!['!', '=']),
        Some(TokenV::Sym(Token::Lt)) => Some(seq!['<']),
        Some(TokenV::Sym(Token::Gt)) => Some(seq!['>']),
        Some(TokenV::Sym(Token::Lte)) => Some(seq!['<', '=']),
        Some(TokenV::Sym(Token::Gte)) => Some(seq!['>', '=']),
        _ => None,
    }
}

/// The name of an aggregate function.
pub open spec fn agg_name(t: Option<TokenV>) -> Option<Seq<char>> {
    match t {
        Some(TokenV::Sym(Token::Count)) => Some(seq!['C', 'O', 'U', 'N', 'T']),
        Some(TokenV::Sym(Token::Sum)) => Some(seq!['S', 'U', 'M']),
        Some(TokenV::Sym(Token::Avg)) => Some(seq!['A', 'V', 'G']),
        Some(TokenV::Sym(Token::Min)) => Some(seq!['M', 'I', 'N']),
        Some(TokenV::Sym(Token::Max)) => Some(seq!['M', 'A', 'X']),
        _ => None,
    }
}

/// `Primary := Identifier ('.' Identifier)? | String | Integer | Float`
pub open spec fn p_primary(ts: Seq<TokenV>, k: int) -> Step<ExprV> {
    match cur(ts, k) {
        Some(TokenV::Ident(id)) => if is_sym(ts, k + 1, Token::Dot) {
            match cur(ts, k + 2) {
                Some(TokenV::Ident(col)) => (
                    Ok(ExprV::Column { table: Some(id), name: col }),
                    k + 3,
                ),
                _ => (Err(ParseError::ExpectedColumnName), k + 2),
            }
        } else {
            (Ok(ExprV::Identifier(id)), k + 1)
        },
        Some(TokenV::Str(s)) => (Ok(ExprV::Str(s)), k + 1),
        Some(TokenV::Int(n)) => (Ok(ExprV::Integer(n)), k + 1),
        Some(TokenV::Float(f)) => (Ok(ExprV::Float(f)), k + 1),
        _ => (Err(ParseError::UnexpectedToken), k),
    }
}

/// The comparisons that follow `left`, folded to the left.
pub open spec fn p_expr_tail(ts: Seq<TokenV>, k: int, left: ExprV) -> Step<ExprV>
    decreases ts.len() - k,
{
    match cmp_op(cur(ts, k)) {
        None => (Ok(left), k),
        Some(op) => {
            let (r, k2) = p_primary(ts, k + 1);
            match r {
                Err(e) => (Err(e), k2),
                Ok(right) => if k < k2 {
                    p_expr_tail(
                        ts,
                        k2,
                        ExprV::Binary { left: Box::new(left), op, right: Box::new(right) },
                    )
                } else {
                    (Err(ParseError::UnexpectedToken), k2)
                },
            }
        },
    }
}

/// `Expr := Primary (CmpOp Primary)*`
pub open spec fn p_expr(ts: Seq<TokenV>, k: int) -> Step<ExprV> {
    let (r, k1) = p_primary(ts, k);
    match r {
        Err(e) => (Err(e), k1),
        Ok(left) => p_expr_tail(ts, k1, left),
    }
}

/// `AggFn '(' ('*' | Expr) ')'`
pub open spec fn p_call(ts: Seq<TokenV>, k: int) -> Step<ExprV> {
    match agg_name(cur(ts, k)) {
        None => (Err(ParseError::ExpectedFunction), k),
        Some(name) => if !is_sym(ts, k + 1, Token::LParen) {
            (Err(ParseError::ExpectedLParen), k + 1)
        } else {
            let k2 = k + 2;
            let (r, k3) = if is_sym(ts, k2, Token::Asterisk) {
                (Ok(ExprV::Star), k2 + 1)
            } else {
                p_expr(ts, k2)
            };
            match r {
                Err(e) => (Err(e), k3),
                Ok(arg) => if is_sym(ts, k3, Token::RParen) {
                    (Ok(ExprV::Call { name, args: seq![arg] }), k3 + 1)
                } else {
                    (Err(ParseError::ExpectedRParen), k3)
                },
            }
        },
    }
}

/// `Column := '*' | AggFn '(' ('*' | Expr) ')' | Expr`
pub open spec fn p_column(ts: Seq<TokenV>, k: int) -> Step<ExprV> {
    if is_sym(ts, k, Token::Asterisk) {
        (Ok(ExprV::Star), k + 1)
    } else if agg_name(cur(ts, k)) is Some {
        p_call(ts, k)
    } else {
        p_expr(ts, k)
    }
}

/// The columns from index `k` on, after the columns `acc`.
pub open spec fn p_columns(ts: Seq<TokenV>, k: int, acc: Seq<ExprV>) -> Step<Seq<ExprV>>
    decreases ts.len() - k,
{
    let (r, k1) = p_column(ts, k);
    match r {
        Err(e) => (Err(e), k1),
        Ok(c) => if is_sym(ts, k1, Token::Comma) && k <= k1 {
            p_columns(ts, k1 + 1, acc.push(c))
        } else {
            (Ok(acc.push(c)), k1)
        },
    }
}

/// An identifier, or the error `err`.
pub open spec fn p_ident(ts: Seq<TokenV>, k: int, err: ParseError) -> Step<Seq<char>> {
    match cur(ts, k) {
        Some(TokenV::Ident(s)) => (Ok(s), k + 1),
        _ => (Err(err), k),
    }
}

/// `Join := (INNER|LEFT|RIGHT)? JOIN Identifier ON Expr`
pub open spec fn p_join(ts: Seq<TokenV>, k: int) -> Step<JoinV> {
    let (kind, k1) = if is_sym(ts, k, Token::Left) {
        (JoinKind::Left, k + 1)
    } else if is_sym(ts, k, Token::Right) {
        (JoinKind::Right, k + 1)
    } else if is_sym(ts, k, Token::Inner) {
        (JoinKind::Inner, k + 1)
    } else {
        (JoinKind::Inner, k)
    };
    if !is_sym(ts, k1, Token::Join) {
        (Err(ParseError::ExpectedJoin), k1)
    } else {
        let (t, k3) = p_ident(ts, k1 + 1, ParseError::ExpectedJoinTable);
        match t {
            Err(e) => (Err(e), k3),
            Ok(table) => if !is_sym(ts, k3, Token::On) {
                (Err(ParseError::ExpectedOn), k3)
            } else {
                let (c, k4) = p_expr(ts, k3 + 1);
                match c {
                    Err(e) => (Err(e), k4),
                    Ok(condition) => (Ok(JoinV { kind, table, condition }), k4),
                }
            },
        }
    }
}

/// A token that starts a join.
pub open spec fn starts_join(t: Option<TokenV>) -> bool {
    t == Some(TokenV::Sym(Token::Join)) || t == Some(TokenV::Sym(Token::Inner)) || t == Some(
        TokenV::Sym(Token::Left),
    ) || t == Some(TokenV::Sym(Token::Right))
}

/// The joins from index `k` on, after the joins `acc`.
pub open spec fn p_joins(ts: Seq<TokenV>, k: int, acc: Seq<JoinV>) -> Step<Seq<JoinV>>
    decreases ts.len() - k,
{
    if starts_join(cur(ts, k)) {
        let (r, k1) = p_join(ts, k);
        match r {
            Err(e) => (Err(e), k1),
            Ok(j) => if k < k1 && k1 <= ts.len() {
                p_joins(ts, k1, acc.push(j))
            } else {
                (Err(ParseError::UnexpectedToken), k1)
            },
        }
    } else {
        (Ok(acc), k)
    }
}

/// The order-by items from index `k` on, after the items `acc`.
pub open spec fn p_order(ts: Seq<TokenV>, k: int, acc: Seq<(ExprV, OrderDir)>) -> Step<
    Seq<(ExprV, OrderDir)>,
>
    decreases ts.len() - k,
{
    let (r, k1) = p_primary(ts, k);
    match r {
        Err(e) => (Err(e), k1),
        Ok(e) => {
            let (dir, k2) = if is_sym(ts, k1, Token::Asc) {
                (OrderDir::Asc, k1 + 1)
            } else if is_sym(ts, k1, Token::Desc) {
                (OrderDir::Desc, k1 + 1)
            } else {
                (OrderDir::Asc, k1)
            };
            if is_sym(ts, k2, Token::Comma) && k <= k2 {
                p_order(ts, k2 + 1, acc.push((e, dir)))
            } else {
                (Ok(acc.push((e, dir))), k2)
            }
        },
    }
}

/// The optional clauses after the table and joins: `WHERE`, `ORDER BY`,
/// `LIMIT`, in that order.
pub open spec fn p_clauses(
    ts: Seq<TokenV>,
    k: int,
    columns: Seq<ExprV>,
    table: Seq<char>,
    joins: Seq<JoinV>,
) -> Step<SelectV> {
    let (w, k1) = if is_sym(ts, k, Token::Where) {
        let (r, k1) = p_expr(ts, k + 1);
        match r {
            Err(e) => (Err(e), k1),
            Ok(e) => (Ok(Some(e)), k1),
        }
    } else {
        (Ok(None), k)
    };
    match w {
        Err(e) => (Err(e), k1),
        Ok(where_clause) => {
            let (o, k2) = if is_sym(ts, k1, Token::Order) {
                if is_sym(ts, k1 + 1, Token::By) {
                    p_order(ts, k1 + 2, Seq::empty())
                } else {
                    (Err(ParseError::ExpectedBy), k1 + 1)
                }
            } else {
                (Ok(Seq::empty()), k1)
            };
            match o {
                Err(e) => (Err(e), k2),
                Ok(order_by) => {
                    let (l, k3) = if is_sym(ts, k2, Token::Limit) {
                        match cur(ts, k2 + 1) {
                            Some(TokenV::Int(n)) => (Ok(Some(n)), k2 + 2),
                            _ => (Err(ParseError::ExpectedLimitInteger), k2 + 1),
                        }
                    } else {
                        (Ok(None), k2)
                    };
                    match l {
                        Err(e) => (Err(e), k3),
                        Ok(limit) => (
                            Ok(SelectV { columns, table, joins, where_clause, order_by, limit }),
                            k3,
                        ),
                    }
                },
            }
        },
    }
}

/// The joins and clauses after the table name.
pub open spec fn p_after_table(
    ts: Seq<TokenV>,
    k: int,
    columns: Seq<ExprV>,
    table: Seq<char>,
) -> Step<SelectV> {
    let (j, k1) = p_joins(ts, k, Seq::empty());
    match j {
        Err(e) => (Err(e), k1),
        Ok(joins) => p_clauses(ts, k1, columns, table, joins),
    }
}

/// `Select := SELECT ColumnList FROM Identifier Join* (WHERE Expr)?
/// (ORDER BY OrderList)? (LIMIT Integer)?`; tokens after it are left unread.
pub open spec fn p_select(ts: Seq<TokenV>, k: int) -> Step<SelectV> {
    if !is_sym(ts, k, Token::Select) {
        (Err(ParseError::ExpectedSelect), k)
    } else {
        let (c, k1) = p_columns(ts, k + 1, Seq::empty());
        match c {
            Err(e) => (Err(e), k1),
            Ok(columns) => if !is_sym(ts, k1, Token::From) {
                (Err(ParseError::ExpectedFrom), k1)
            } else {
                let (t, k2) = p_ident(ts, k1 + 1, ParseError::ExpectedTableName);
                match t {
                    Err(e) => (Err(e), k2),
                    Ok(table) => p_after_table(ts, k2, columns, table),
                }
            },
        }
    }
}

/// The outcome of parsing the tokens `ts`, which stop at a bad number where
/// `bad` holds: the parser reads one token ahead of the current one, so a bad
/// number at or just after the index where parsing stops fails the parse.
pub open spec fn select_outcome(ts: Seq<TokenV>, bad: bool) -> Result<SelectV, ParseError> {
    let (r, k) = p_select(ts, 0);
    if bad && k + 1 >= ts.len() {
        Err(ParseError::InvalidNumber)
    } else {
        r
    }
}

/// What an optional token is.
pub open spec fn opt_view(t: Option<Token>) -> Option<TokenV> {
    match t {
        Some(x) => Some(x@),
        None => None,
    }
}

/// The tokens of `ts` from index `i` on.
pub open spec fn tokens_from(ts: Seq<TokenV>, i: int) -> Seq<TokenV> {
    if i <= ts.len() {
        ts.subrange(i, ts.len() as int)
    } else {
        Seq::empty()
    }
}

/// `Ok` results agree with their model, and errors are the same.
pub open spec fn agrees<T: View>(r: Result<T, ParseError>, s: Result<T::V, ParseError>) -> bool {
    match s {
        Ok(v) => r is Ok && r->Ok_0@ == v,
        Err(e) => r is Err && r->Err_0 == e,
    }
}

/// A token that carries no text or number.
pub open spec fn is_symbol(t: Token) -> bool {
    t@ is Sym
}

/// The parser: the lexer, the current token and the one after it.
pub struct Parser {
    lexer: Lexer,
    current: Option<Token>,
    peek: Option<Token>,
    failed: bool,
    toks: Ghost<Seq<TokenV>>,
    bad: Ghost<bool>,
    at: Ghost<int>,
}

impl Parser {
    /// All the tokens that the parser reads, from the first.
    pub closed spec fn tokens(&self) -> Seq<TokenV> {
        self.toks@
    }

    /// Whether those tokens stop at a bad number.
    pub closed spec fn stops_bad(&self) -> bool {
        self.bad@
    }

    /// Index of the current token.
    pub closed spec fn index(&self) -> int {
        self.at@
    }

    /// `current` and `peek` are the tokens at the index and after it, the
    /// lexer holds the rest, and `failed` tells whether a bad number was read.
    pub closed spec fn wf(&self) -> bool {
        &&& self.lexer.wf()
        &&& 0 <= self.at@ <= self.toks@.len()
        &&& opt_view(self.current) == cur(self.toks@, self.at@)
        &&& opt_view(self.peek) == cur(self.toks@, self.at@ + 1)
        &&& self.failed == (self.bad@ && self.at@ + 1 >= self.toks@.len())
        &&& !self.failed ==> self.lexer.rest() == (tokens_from(self.toks@, self.at@ + 2), self.bad@)
    }

    /// The same tokens as `o`, read no less far.
    pub open spec fn follows(&self, o: &Parser) -> bool {
        &&& self.wf()
        &&& self.tokens() == o.tokens()
        &&& self.stops_bad() == o.stops_bad()
        &&& o.index() <= self.index()
    }

    fn pull(lexer: &mut Lexer, failed: &mut bool) -> (r: Option<Token>)
        requires
            old(lexer).wf(),
            !*old(failed),
        ensures
            final(lexer).wf(),
            final(lexer).text() == old(lexer).text(),
            ({
                let (ts, bad) = old(lexer).rest();
                if ts.len() > 0 {
                    opt_view(r) == Some(ts[0]) && !*final(failed) && final(lexer).rest() == (
                        ts.drop_first(),
                        bad,
                    )
                } else {
                    r is None && *final(failed) == bad && (!bad ==> final(lexer).rest() == (
                        ts,
                        bad,
                    ))
                }
            }),
    {
        proof {
            lexer.lemma_position();
            lemma_lex_step(lexer.text(), lexer.position());
        }
        let r = match lexer.next_token() {
            Ok(t) => t,
            Err(_) => {
                *failed = true;
                None
            },
        };
        proof {
            let (ts, bad) = old(lexer).rest();
            if ts.len() > 0 {
                assert(ts.drop_first() =~= token_stream(lexer.text(), lexer.position()).0);
            }
        }
        r
    }

    /// A parser that reads the tokens `lexer` has left.
    pub fn new(lexer: Lexer) -> (r: Parser)
        requires
            lexer.wf(),
        ensures
            r.wf(),
            r.tokens() == lexer.rest().0,
            r.stops_bad() == lexer.rest().1,
            r.index() == 0,
    {
        let ghost toks = lexer.rest().0;
        let ghost bad = lexer.rest().1;
        let mut lexer = lexer;
        let mut failed = false;
        let current = Parser::pull(&mut lexer, &mut failed);
        let peek = if failed {
            None
        } else {
            Parser::pull(&mut lexer, &mut failed)
        };
        proof {
            if toks.len() > 0 {
                assert(toks.drop_first() =~= tokens_from(toks, 1));
                if toks.len() > 1 {
                    assert(toks.drop_first().drop_first() =~= tokens_from(toks, 2));
                }
            }
        }
        Parser {
            lexer,
            current,
            peek,
            failed,
            toks: Ghost(toks),
            bad: Ghost(bad),
            at: Ghost(0),
        }
    }

    /// Moves on by one token and returns the one that was current.
    fn next(&mut self) -> (r: Option<Token>)
        requires
            old(self).wf(),
            old(self).index() < old(self).tokens().len(),
        ensures
            final(self).follows(old(self)),
            final(self).index() == old(self).index() + 1,
            opt_view(r) == cur(old(self).tokens(), old(self).index()),
    {
        let ghost ts = self.toks@;
        let ghost k = self.at@;
        let nxt = if self.failed {
            None
        } else {
            Parser::pull(&mut self.lexer, &mut self.failed)
        };
        let r = self.current.take();
        self.current = self.peek.take();
        self.peek = nxt;
        self.at = Ghost(k + 1);
        proof {
            if k + 2 < ts.len() {
                assert(tokens_from(ts, k + 2).drop_first() =~= tokens_from(ts, k + 3));
            }
        }
        r
    }

    /// Skips the current token where it is `expected`, and tells whether it was.
    fn expect(&mut self, expected: Token) -> (r: bool)
        requires
            old(self).wf(),
            is_symbol(expected),
        ensures
            final(self).follows(old(self)),
            r == is_sym(old(self).tokens(), old(self).index(), expected),
            final(self).index() == skip_sym(old(self).tokens(), old(self).index(), expected),
    {
        let hit = match &self.current {
            Some(t) => same_symbol(t, &expected),
            None => false,
        };
        if hit {
            self.next();
        }
        hit
    }

    /// Reads an identifier, or fails with `err`.
    fn expect_identifier(&mut self, err: ParseError) -> (r: Result<String, ParseError>)
        requires
            old(self).wf(),
        ensures
            final(self).follows(old(self)),
            ({
                let (sr, sk) = p_ident(old(self).tokens(), old(self).index(), err);
                final(self).index() == sk && agrees(r, sr)
            }),
    {
        if !matches!(self.current, Some(Token::Identifier(_))) {
            return Err(err);
        }
        match self.next() {
            Some(Token::Identifier(s)) => Ok(s),
            _ => Err(err),
        }
    }

    fn parse_primary(&mut self) -> (r: Result<Expr, ParseError>)
        requires
            old(self).wf(),
        ensures
            final(self).follows(old(self)),
            ({
                let (sr, sk) = p_primary(old(self).tokens(), old(self).index());
                final(self).index() == sk && agrees(r, sr)
            }),
    {
        match &self.current {
            Some(Token::Identifier(_)) => {},
            Some(Token::StringLiteral(_)) => {},
            Some(Token::Integer(_)) => {},
            Some(Token::Float(_)) => {},
            _ => return Err(ParseError::UnexpectedToken),
        }
        match self.next() {
            Some(Token::Identifier(id)) => {
                if matches!(self.current, Some(Token::Dot)) {
                    self.next();
                    match self.expect_identifier(ParseError::ExpectedColumnName) {
                        Ok(col) => Ok(Expr::Column { table: Some(id), name: col }),
                        Err(e) => Err(e),
                    }
                } else {
                    Ok(Expr::Identifier(id))
                }
            },
            Some(Token::StringLiteral(s)) => Ok(Expr::String(s)),
            Some(Token::Integer(n)) => Ok(Expr::Integer(n)),
            Some(Token::Float(f)) => Ok(Expr::Float(f)),
            _ => Err(ParseError::UnexpectedToken),
        }
    }
    fn parse_expr(&mut self) -> (r: Result<Expr, ParseError>)
        requires
            old(self).wf(),
        ensures
            final(self).follows(old(self)),
            ({
                let (sr, sk) = p_expr(old(self).tokens(), old(self).index());
                final(self).index() == sk && agrees(r, sr)
            }),
    {
        let ghost ts = self.toks@;
        let ghost k0 = self.at@;
        let mut left = match self.parse_primary() {
            Ok(e) => e,
            Err(e) => return Err(e),
        };
        loop
            invariant
                self.follows(old(self)),
                k0 == old(self).index(),
                ts == old(self).tokens(),
                p_expr(ts, k0) == p_expr_tail(ts, self.at@, left@),
                ts == self.toks@,
            decreases ts.len() - self.at@,
        {
            let op: &str = match &self.current {
                Some(Token::Eq) => "=",
                Some(Token::Neq) => "!=",
                Some(Token::Lt) => "<",
                Some(Token::Gt) => ">",
                Some(Token::Lte) => "<=",
                Some(Token::Gte) => ">=",
                _ => {
                    assert(cmp_op(cur(ts, self.at@)) is None);
                    return Ok(left);
                },
            };
            let ghost k = self.at@;
            proof {
                reveal_strlit("=");
                reveal_strlit("!=");
                reveal_strlit("<");
                reveal_strlit(">");
                reveal_strlit("<=");
                reveal_strlit(">=");
                assert(cmp_op(cur(ts, k)) == Some(op@));
            }
            self.next();
            let right = match self.parse_primary() {
                Ok(e) => e,
                Err(e) => {
                    return Err(e);
                },
            };
            left = Expr::Binary {
                left: Box::new(left),
                op: String::from_str(op),
                right: Box::new(right),
            };
        }
    }

    fn parse_function_call(&mut self) -> (r: Result<Expr, ParseError>)
        requires
            old(self).wf(),
        ensures
            final(self).follows(old(self)),
            ({
                let (sr, sk) = p_call(old(self).tokens(), old(self).index());
                final(self).index() == sk && agrees(r, sr)
            }),
    {
        let name: &str = match &self.current {
            Some(Token::Count) => "COUNT",
            Some(Token::Sum) => "SUM",
            Some(Token::Avg) => "AVG",
            Some(Token::Min) => "MIN",
            Some(Token::Max) => "MAX",
            _ => return Err(ParseError::ExpectedFunction),
        };
        proof {
            reveal_strlit("COUNT");
            reveal_strlit("SUM");
            reveal_strlit("AVG");
            reveal_strlit("MIN");
            reveal_strlit("MAX");
            assert(agg_name(cur(self.toks@, self.at@)) == Some(name@));
        }
        self.next();
        if !self.expect(Token::LParen) {
            return Err(ParseError::ExpectedLParen);
        }
        let arg = if matches!(self.current, Some(Token::Asterisk)) {
            self.next();
            Expr::Star
        } else {
            match self.parse_expr() {
                Ok(e) => e,
                Err(e) => return Err(e),
            }
        };
        if !self.expect(Token::RParen) {
            return Err(ParseError::ExpectedRParen);
        }
        let args = vec![arg];
        let r = Expr::Call { name: String::from_str(name), args };
        proof {
            assert(exprs_view(args@, 1) == Seq::<ExprV>::empty());
            assert(exprs_view(args@, 0) =~= seq![args@[0]@]);
        }
        Ok(r)
    }

    fn parse_columns(&mut self) -> (r: Result<Vec<Expr>, ParseError>)
        requires
            old(self).wf(),
        ensures
            final(self).follows(old(self)),
            ({
                let (sr, sk) = p_columns(old(self).tokens(), old(self).index(), Seq::empty());
                final(self).index() == sk && match sr {
                    Ok(v) => r is Ok && r->Ok_0@.map_values(|e: Expr| e@) == v,
                    Err(e) => r == Err::<Vec<Expr>, ParseError>(e),
                }
            }),
    {
        let ghost ts = self.toks@;
        let ghost k0 = self.at@;
        let mut cols: Vec<Expr> = Vec::new();
        assert(cols@.map_values(|e: Expr| e@) =~= Seq::<ExprV>::empty());
        loop
            invariant
                self.follows(old(self)),
                k0 == old(self).index(),
                ts == old(self).tokens(),
                ts == self.toks@,
                p_columns(ts, k0, Seq::empty()) == p_columns(
                    ts,
                    self.at@,
                    cols@.map_values(|e: Expr| e@),
                ),
            decreases ts.len() - self.at@,
        {
            let ghost k = self.at@;
            let col = if matches!(self.current, Some(Token::Asterisk)) {
                self.next();
                Expr::Star
            } else if matches!(
                self.current,
                Some(Token::Count) | Some(Token::Sum) | Some(Token::Avg) | Some(Token::Min) | Some(
                    Token::Max,
                )
            ) {
                match self.parse_function_call() {
                    Ok(e) => e,
                    Err(e) => return Err(e),
                }
            } else {
                match self.parse_expr() {
                    Ok(e) => e,
                    Err(e) => return Err(e),
                }
            };
            assert(p_column(ts, k) == (Ok::<ExprV, ParseError>(col@), self.at@));
            let ghost before = cols@.map_values(|e: Expr| e@);
            cols.push(col);
            assert(cols@.map_values(|e: Expr| e@) =~= before.push(col@));
            if !matches!(self.current, Some(Token::Comma)) {
                return Ok(cols);
            }
            self.next();
        }
    }

    fn parse_join(&mut self) -> (r: Result<Join, ParseError>)
        requires
            old(self).wf(),
        ensures
            final(self).follows(old(self)),
            ({
                let (sr, sk) = p_join(old(self).tokens(), old(self).index());
                final(self).index() == sk && agrees(r, sr)
            }),
            starts_join(cur(old(self).tokens(), old(self).index())) ==> final(self).index()
                > old(self).index(),
    {
        let kind = if matches!(self.current, Some(Token::Left)) {
            self.next();
            JoinKind::Left
        } else if matches!(self.current, Some(Token::Right)) {
            self.next();
            JoinKind::Right
        } else if matches!(self.current, Some(Token::Inner)) {
            self.next();
            JoinKind::Inner
        } else {
            JoinKind::Inner
        };
        if !self.expect(Token::Join) {
            return Err(ParseError::ExpectedJoin);
        }
        let table = match self.expect_identifier(ParseError::ExpectedJoinTable) {
            Ok(t) => t,
            Err(e) => return Err(e),
        };
        if !self.expect(Token::On) {
            return Err(ParseError::ExpectedOn);
        }
        let condition = match self.parse_expr() {
            Ok(e) => e,
            Err(e) => return Err(e),
        };
        Ok(Join { kind, table, condition })
    }

    fn parse_order_by(&mut self) -> (r: Result<Vec<(Expr, OrderDir)>, ParseError>)
        requires
            old(self).wf(),
        ensures
            final(self).follows(old(self)),
            ({
                let (sr, sk) = p_order(old(self).tokens(), old(self).index(), Seq::empty());
                final(self).index() == sk && match sr {
                    Ok(v) => r is Ok && r->Ok_0@.map_values(|o: (Expr, OrderDir)| (o.0@, o.1))
                        == v,
                    Err(e) => r == Err::<Vec<(Expr, OrderDir)>, ParseError>(e),
                }
            }),
    {
        let ghost ts = self.toks@;
        let ghost k0 = self.at@;
        let mut items: Vec<(Expr, OrderDir)> = Vec::new();
        assert(items@.map_values(|o: (Expr, OrderDir)| (o.0@, o.1)) =~= Seq::<(ExprV, OrderDir)>::empty());
        loop
            invariant
                self.follows(old(self)),
                k0 == old(self).index(),
                ts == old(self).tokens(),
                ts == self.toks@,
                p_order(ts, k0, Seq::empty()) == p_order(
                    ts,
                    self.at@,
                    items@.map_values(|o: (Expr, OrderDir)| (o.0@, o.1)),
                ),
            decreases ts.len() - self.at@,
        {
            let expr = match self.parse_primary() {
                Ok(e) => e,
                Err(e) => return Err(e),
            };
            let dir = if matches!(self.current, Some(Token::Asc)) {
                self.next();
                OrderDir::Asc
            } else if matches!(self.current, Some(Token::Desc)) {
                self.next();
                OrderDir::Desc
            } else {
                OrderDir::Asc
            };
            let ghost before = items@.map_values(|o: (Expr, OrderDir)| (o.0@, o.1));
            let ghost ev = expr@;
            items.push((expr, dir));
            assert(items@.map_values(|o: (Expr, OrderDir)| (o.0@, o.1)) =~= before.push((ev, dir)));
            if !matches!(self.current, Some(Token::Comma)) {
                return Ok(items);
            }
            self.next();
        }
    }

    #[verifier::rlimit(60)]
    fn read_select(&mut self) -> (r: Result<Select, ParseError>)
        requires
            old(self).wf(),
        ensures
            final(self).follows(old(self)),
            ({
                let (sr, sk) = p_select(old(self).tokens(), old(self).index());
                final(self).index() == sk && agrees(r, sr)
            }),
    {
        let ghost ts = self.toks@;
        if !self.expect(Token::Select) {
            return Err(ParseError::ExpectedSelect);
        }
        let columns = match self.parse_columns() {
            Ok(c) => c,
            Err(e) => return Err(e),
        };
        if !self.expect(Token::From) {
            return Err(ParseError::ExpectedFrom);
        }
        let table = match self.expect_identifier(ParseError::ExpectedTableName) {
            Ok(t) => t,
            Err(e) => return Err(e),
        };
        let ghost k3 = self.at@;
        let ghost outer = *self;
        let mut joins: Vec<Join> = Vec::new();
        assert(joins@.map_values(|j: Join| j@) =~= Seq::<JoinV>::empty());
        while matches!(
            self.current,
            Some(Token::Join) | Some(Token::Inner) | Some(Token::Left) | Some(Token::Right)
        )
            invariant
                self.follows(&outer),
                outer.follows(old(self)),
                ts == old(self).tokens(),
                k3 == outer.index(),
                p_select(ts, old(self).index()) == p_after_table(
                    ts,
                    k3,
                    columns@.map_values(|e: Expr| e@),
                    table@,
                ),
                p_joins(ts, k3, Seq::empty()) == p_joins(
                    ts,
                    self.at@,
                    joins@.map_values(|j: Join| j@),
                ),
            decreases ts.len() - self.at@,
        {
            assert(starts_join(cur(ts, self.at@)));
            let j = match self.parse_join() {
                Ok(j) => j,
                Err(e) => return Err(e),
            };
            let ghost before = joins@.map_values(|j: Join| j@);
            let ghost jv = j@;
            joins.push(j);
            assert(joins@.map_values(|j: Join| j@) =~= before.push(jv));
        }
        let ghost k4 = self.at@;
        let where_clause = if matches!(self.current, Some(Token::Where)) {
            self.next();
            match self.parse_expr() {
                Ok(e) => Some(e),
                Err(e) => return Err(e),
            }
        } else {
            None
        };
        let mut order_by: Vec<(Expr, OrderDir)> = Vec::new();
        assert(order_by@.map_values(|o: (Expr, OrderDir)| (o.0@, o.1)) =~= Seq::<
            (ExprV, OrderDir),
        >::empty());
        if matches!(self.current, Some(Token::Order)) {
            self.next();
            if !self.expect(Token::By) {
                return Err(ParseError::ExpectedBy);
            }
            order_by = match self.parse_order_by() {
                Ok(o) => o,
                Err(e) => return Err(e),
            };
        }
        let mut limit: Option<i64> = None;
        if matches!(self.current, Some(Token::Limit)) {
            self.next();
            if !matches!(self.current, Some(Token::Integer(_))) {
                return Err(ParseError::ExpectedLimitInteger);
            }
            limit = match self.next() {
                Some(Token::Integer(n)) => Some(n),
                _ => return Err(ParseError::ExpectedLimitInteger),
            };
        }
        let r = Select { columns, table, joins, where_clause, order_by, limit };
        Ok(r)
    }

    /// Parses a `SELECT` statement from the current token on. Tokens after
    /// it stay unread; a bad number among the tokens read fails the parse.
    pub fn parse_select(&mut self) -> (r: Result<Select, ParseError>)
        requires
            old(self).wf(),
        ensures
            final(self).follows(old(self)),
            ({
                let (sr, sk) = p_select(old(self).tokens(), old(self).index());
                if old(self).stops_bad() && sk + 1 >= old(self).tokens().len() {
                    r is Err && r->Err_0 == ParseError::InvalidNumber
                } else {
                    agrees(r, sr)
                }
            }),
    {
        let r = self.read_select();
        if self.failed {
            return Err(ParseError::InvalidNumber);
        }
        r
    }

}

/// Parses the `SELECT` statement at the start of `text`.
pub fn parse_sql(text: &str) -> (r: Result<Select, ParseError>)
    ensures
        match select_outcome(token_stream(text@, 0).0, token_stream(text@, 0).1) {
            Ok(v) => r is Ok && r->Ok_0@ == v,
            Err(e) => r is Err && r->Err_0 == e,
        },
{
    let lexer = Lexer::new(text);
    let mut parser = Parser::new(lexer);
    parser.parse_select()
}

/// `a` is the symbol `b`.
fn same_symbol(a: &Token, b: &Token) -> (r: bool)
    requires
        is_symbol(*b),
    ensures
        r == (a@ == b@),
{
    match (a, b) {
        (Token::Select, Token::Select) => true,
        (Token::From, Token::From) => true,
        (Token::Where, Token::Where) => true,
        (Token::Order, Token::Order) => true,
        (Token::By, Token::By) => true,
        (Token::Limit, Token::Limit) => true,
        (Token::Asc, Token::Asc) => true,
        (Token::Desc, Token::Desc) => true,
        (Token::Join, Token::Join) => true,
        (Token::Inner, Token::Inner) => true,
        (Token::Left, Token::Left) => true,
        (Token::Right, Token::Right) => true,
        (Token::On, Token::On) => true,
        (Token::Asterisk, Token::Asterisk) => true,
        (Token::Comma, Token::Comma) => true,
        (Token::Semicolon, Token::Semicolon) => true,
        (Token::Dot, Token::Dot) => true,
        (Token::Eq, Token::Eq) => true,
        (Token::Neq, Token::Neq) => true,
        (Token::Lt, Token::Lt) => true,
        (Token::Gt, Token::Gt) => true,
        (Token::Lte, Token::Lte) => true,
        (Token::Gte, Token::Gte) => true,
        (Token::LParen, Token::LParen) => true,
        (Token::RParen, Token::RParen) => true,
        (Token::And, Token::And) => true,
        (Token::Or, Token::Or) => true,
        (Token::Count, Token::Count) => true,
        (Token::Sum, Token::Sum) => true,
        (Token::Avg, Token::Avg) => true,
        (Token::Min, Token::Min) => true,
        (Token::Max, Token::Max) => true,
        _ => false,
    }
}

} // verus!

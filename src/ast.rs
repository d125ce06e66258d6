//! The syntax tree of a `SELECT` statement.
use vstd::prelude::*;

verus! {

/// An expression. `Float` keeps a decimal literal as it was written.
#[derive(Debug, PartialEq)]
pub enum Expr {
    Identifier(String),
    String(String),
    Integer(i64),
    Float(String),
    Star,
    Call { name: String, args: Vec<Expr> },
    Binary { left: Box<Expr>, op: String, right: Box<Expr> },
    Column { table: Option<String>, name: String },
}

/// What an expression is, with text in place of strings.
pub enum ExprV {
    Identifier(Seq<char>),
    Str(Seq<char>),
    Integer(i64),
    Float(Seq<char>),
    Star,
    Call { name: Seq<char>, args: Seq<ExprV> },
    Binary { left: Box<ExprV>, op: Seq<char>, right: Box<ExprV> },
    Column { table: Option<Seq<char>>, name: Seq<char> },
}

pub open spec fn opt_text(s: Option<String>) -> Option<Seq<char>> {
    match s {
        Some(t) => Some(t@),
        None => None,
    }
}

/// What `e` is.
pub open spec fn expr_view(e: Expr) -> ExprV
    decreases e, 0int,
{
    match e {
        Expr::Identifier(s) => ExprV::Identifier(s@),
        Expr::String(s) => ExprV::Str(s@),
        Expr::Integer(n) => ExprV::Integer(n),
        Expr::Float(s) => ExprV::Float(s@),
        Expr::Star => ExprV::Star,
        Expr::Call { name, args } => ExprV::Call { name: name@, args: exprs_view(args@, 0) },
        Expr::Binary { left, op, right } => ExprV::Binary {
            left: Box::new(expr_view(*left)),
            op: op@,
            right: Box::new(expr_view(*right)),
        },
        Expr::Column { table, name } => ExprV::Column { table: opt_text(table), name: name@ },
    }
}

/// What the expressions `s[i..]` are.
pub open spec fn exprs_view(s: Seq<Expr>, i: int) -> Seq<ExprV>
    decreases s, s.len() - i,
{
    if 0 <= i < s.len() {
        seq![expr_view(s[i])] + exprs_view(s, i + 1)
    } else {
        Seq::empty()
    }
}

impl View for Expr {
    type V = ExprV;

    open spec fn view(&self) -> ExprV {
        expr_view(*self)
    }
}


/// A `SELECT` statement.
#[derive(Debug, PartialEq)]
pub struct Select {
    pub columns: Vec<Expr>,
    pub table: String,
    pub joins: Vec<Join>,
    pub where_clause: Option<Expr>,
    pub order_by: Vec<(Expr, OrderDir)>,
    pub limit: Option<i64>,
}

/// A join onto another table.
#[derive(Debug, PartialEq)]
pub struct Join {
    pub kind: JoinKind,
    pub table: String,
    pub condition: Expr,
}

#[derive(Debug, Clone, Copy, PartialEq, Eq, Structural)]
pub enum JoinKind {
    Inner,
    Left,
    Right,
}

#[derive(Debug, Clone, Copy, PartialEq, Eq, Structural)]
pub enum OrderDir {
    Asc,
    Desc,
}

/// What a join is.
pub struct JoinV {
    pub kind: JoinKind,
    pub table: Seq<char>,
    pub condition: ExprV,
}

/// What a `SELECT` statement is.
pub struct SelectV {
    pub columns: Seq<ExprV>,
    pub table: Seq<char>,
    pub joins: Seq<JoinV>,
    pub where_clause: Option<ExprV>,
    pub order_by: Seq<(ExprV, OrderDir)>,
    pub limit: Option<i64>,
}

impl View for Join {
    type V = JoinV;

    open spec fn view(&self) -> JoinV {
        JoinV { kind: self.kind, table: self.table@, condition: self.condition@ }
    }
}

impl View for Select {
    type V = SelectV;

    open spec fn view(&self) -> SelectV {
        SelectV {
            columns: self.columns@.map_values(|e: Expr| e@),
            table: self.table@,
            joins: self.joins@.map_values(|j: Join| j@),
            where_clause: match self.where_clause {
                Some(e) => Some(e@),
                None => None,
            },
            order_by: self.order_by@.map_values(|o: (Expr, OrderDir)| (o.0@, o.1)),
            limit: self.limit,
        }
    }
}

} // verus!

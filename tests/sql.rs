use codecrafters_sqlite::ast::{Expr, Join, JoinKind, OrderDir, Select};
use codecrafters_sqlite::lexer::{LexError, Lexer};
use codecrafters_sqlite::parser::{parse_sql, ParseError, Parser};
use codecrafters_sqlite::token::Token;

fn ident(s: &str) -> Expr {
    Expr::Identifier(s.to_string())
}

fn column(t: &str, c: &str) -> Expr {
    Expr::Column { table: Some(t.to_string()), name: c.to_string() }
}

fn tokens(text: &str) -> Vec<Token> {
    let mut lexer = Lexer::new(text);
    let mut out = Vec::new();
    while let Ok(Some(t)) = lexer.next_token() {
        out.push(t);
    }
    out
}

#[test]
fn unterminated_string_takes_the_rest() {
    let mut lexer = Lexer::new("WHERE name = 'abc def");
    assert_eq!(lexer.next_token(), Ok(Some(Token::Where)));
    assert_eq!(lexer.next_token(), Ok(Some(Token::Identifier("name".to_string()))));
    assert_eq!(lexer.next_token(), Ok(Some(Token::Eq)));
    assert_eq!(lexer.next_token(), Ok(Some(Token::StringLiteral("abc def".to_string()))));
    assert_eq!(lexer.next_token(), Ok(None));
    assert_eq!(lexer.next_token(), Ok(None));
}

#[test]
fn keywords_ignore_case() {
    assert_eq!(
        tokens("select From wHeRe order BY limit asc DESC join inner left right on and or"),
        vec![
            Token::Select,
            Token::From,
            Token::Where,
            Token::Order,
            Token::By,
            Token::Limit,
            Token::Asc,
            Token::Desc,
            Token::Join,
            Token::Inner,
            Token::Left,
            Token::Right,
            Token::On,
            Token::And,
            Token::Or,
        ]
    );
    assert_eq!(
        tokens("count Sum AVG min MAX selected _x1"),
        vec![
            Token::Count,
            Token::Sum,
            Token::Avg,
            Token::Min,
            Token::Max,
            Token::Identifier("selected".to_string()),
            Token::Identifier("_x1".to_string()),
        ]
    );
}

#[test]
fn operators_and_punctuation() {
    assert_eq!(
        tokens("* , ; ( ) . = != < > <= >= <>"),
        vec![
            Token::Asterisk,
            Token::Comma,
            Token::Semicolon,
            Token::LParen,
            Token::RParen,
            Token::Dot,
            Token::Eq,
            Token::Neq,
            Token::Lt,
            Token::Gt,
            Token::Lte,
            Token::Gte,
            Token::Lt,
            Token::Gt,
        ]
    );
}

#[test]
fn unknown_character_ends_the_tokens() {
    let mut lexer = Lexer::new("a # b");
    assert_eq!(lexer.next_token(), Ok(Some(Token::Identifier("a".to_string()))));
    assert_eq!(lexer.next_token(), Ok(None));
    assert_eq!(lexer.next_token(), Ok(None));
    assert_eq!(tokens("a ! b"), vec![Token::Identifier("a".to_string())]);
}

#[test]
fn numbers() {
    assert_eq!(tokens("42 3.14 7."), vec![
        Token::Integer(42),
        Token::Float("3.14".to_string()),
        Token::Float("7.".to_string()),
    ]);
    assert_eq!(tokens("9223372036854775807"), vec![Token::Integer(i64::MAX)]);
    assert_eq!(Lexer::new("1.2.3").next_token(), Err(LexError::InvalidNumber));
    assert_eq!(Lexer::new("9223372036854775808").next_token(), Err(LexError::InvalidNumber));
}

#[test]
fn string_is_followed_by_the_next_token() {
    assert_eq!(
        tokens("'a','b'"),
        vec![
            Token::StringLiteral("a".to_string()),
            Token::Comma,
            Token::StringLiteral("b".to_string()),
        ]
    );
}

#[test]
fn select_star() {
    let s = parse_sql("SELECT * FROM apples").unwrap();
    assert_eq!(
        s,
        Select {
            columns: vec![Expr::Star],
            table: "apples".to_string(),
            joins: vec![],
            where_clause: None,
            order_by: vec![],
            limit: None,
        }
    );
}

#[test]
fn select_columns_where() {
    let s = parse_sql("SELECT name, color FROM apples WHERE color = 'Yellow'").unwrap();
    assert_eq!(s.columns, vec![ident("name"), ident("color")]);
    assert_eq!(s.table, "apples");
    assert_eq!(
        s.where_clause,
        Some(Expr::Binary {
            left: Box::new(ident("color")),
            op: "=".to_string(),
            right: Box::new(Expr::String("Yellow".to_string())),
        })
    );
}

#[test]
fn select_count_star() {
    let s = parse_sql("SELECT COUNT(*) FROM apples").unwrap();
    assert_eq!(s.columns, vec![Expr::Call { name: "COUNT".to_string(), args: vec![Expr::Star] }]);
    assert_eq!(s.table, "apples");
}

#[test]
fn select_join_order_limit() {
    let s = parse_sql("SELECT a.name FROM a LEFT JOIN b ON a.id = b.a_id ORDER BY a.name DESC LIMIT 5")
        .unwrap();
    assert_eq!(s.columns, vec![column("a", "name")]);
    assert_eq!(
        s.joins,
        vec![Join {
            kind: JoinKind::Left,
            table: "b".to_string(),
            condition: Expr::Binary {
                left: Box::new(column("a", "id")),
                op: "=".to_string(),
                right: Box::new(column("b", "a_id")),
            },
        }]
    );
    assert_eq!(s.order_by, vec![(column("a", "name"), OrderDir::Desc)]);
    assert_eq!(s.limit, Some(5));
}

#[test]
fn comparisons_fold_left() {
    let s = parse_sql("SELECT x FROM t WHERE a < 1 >= 2.5").unwrap();
    assert_eq!(
        s.where_clause,
        Some(Expr::Binary {
            left: Box::new(Expr::Binary {
                left: Box::new(ident("a")),
                op: "<".to_string(),
                right: Box::new(Expr::Integer(1)),
            }),
            op: ">=".to_string(),
            right: Box::new(Expr::Float("2.5".to_string())),
        })
    );
}

#[test]
fn aggregates_and_joins() {
    let s = parse_sql("SELECT max(price), sum(qty) FROM t JOIN u ON t.id = u.id INNER JOIN v ON x != y RIGHT JOIN w ON p <= q ORDER BY a, b ASC")
        .unwrap();
    assert_eq!(
        s.columns,
        vec![
            Expr::Call { name: "MAX".to_string(), args: vec![ident("price")] },
            Expr::Call { name: "SUM".to_string(), args: vec![ident("qty")] },
        ]
    );
    let kinds: Vec<JoinKind> = s.joins.iter().map(|j| j.kind).collect();
    assert_eq!(kinds, vec![JoinKind::Inner, JoinKind::Inner, JoinKind::Right]);
    assert_eq!(s.order_by, vec![(ident("a"), OrderDir::Asc), (ident("b"), OrderDir::Asc)]);
}

#[test]
fn and_is_not_consumed() {
    let s = parse_sql("SELECT x FROM t WHERE a = 1 AND b = 2").unwrap();
    assert_eq!(
        s.where_clause,
        Some(Expr::Binary {
            left: Box::new(ident("a")),
            op: "=".to_string(),
            right: Box::new(Expr::Integer(1)),
        })
    );
}

#[test]
fn parse_errors() {
    assert_eq!(parse_sql("FROM apples"), Err(ParseError::ExpectedSelect));
    assert_eq!(parse_sql("SELECT * apples"), Err(ParseError::ExpectedFrom));
    assert_eq!(parse_sql("SELECT * FROM"), Err(ParseError::ExpectedTableName));
    assert_eq!(parse_sql("SELECT a. FROM t"), Err(ParseError::ExpectedColumnName));
    assert_eq!(parse_sql("SELECT * FROM t JOIN ON x = y"), Err(ParseError::ExpectedJoinTable));
    assert_eq!(parse_sql("SELECT * FROM t LIMIT x"), Err(ParseError::ExpectedLimitInteger));
    assert_eq!(parse_sql("SELECT FROM t"), Err(ParseError::UnexpectedToken));
    assert_eq!(parse_sql(""), Err(ParseError::ExpectedSelect));
}

#[test]
fn missing_required_tokens_fail() {
    assert_eq!(parse_sql("SELECT * FROM t ORDER x"), Err(ParseError::ExpectedBy));
    assert_eq!(parse_sql("SELECT COUNT * FROM t"), Err(ParseError::ExpectedLParen));
    assert_eq!(parse_sql("SELECT COUNT(* FROM t"), Err(ParseError::ExpectedRParen));
    assert_eq!(parse_sql("SELECT MIN(a FROM t"), Err(ParseError::ExpectedRParen));
    assert_eq!(parse_sql("SELECT * FROM t LEFT b ON x = y"), Err(ParseError::ExpectedJoin));
    assert_eq!(parse_sql("SELECT * FROM t JOIN b x = y"), Err(ParseError::ExpectedOn));
    let mut p = Parser::new(Lexer::new("SELECT * FROM t ORDER x"));
    assert!(p.parse_select().is_err());
}

#[test]
fn bad_number_fails_the_parse() {
    assert_eq!(parse_sql("SELECT * FROM t LIMIT 1.2.3"), Err(ParseError::InvalidNumber));
    assert_eq!(parse_sql("SELECT 1.2.3 FROM t"), Err(ParseError::InvalidNumber));
    // the token after the last one parsed is read ahead
    assert_eq!(parse_sql("SELECT * FROM t x 1.2.3"), Err(ParseError::InvalidNumber));
    // a bad number two tokens past the end of the statement is never read
    assert!(parse_sql("SELECT * FROM t x y 1.2.3").is_ok());
}

#[test]
fn parser_from_lexer() {
    let mut parser = Parser::new(Lexer::new("select * from apples;"));
    let s = parser.parse_select().unwrap();
    assert_eq!(s.table, "apples");
}

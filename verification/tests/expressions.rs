use expr_lang::grammar::Tier;
use expr_lang::parser::{constness_for, operator_for};
use expr_lang::{Constness, ErrorKind, ExprType, Node, Operator, ParseError, Parser};

fn err<T>(input: &'static str, kind: ErrorKind) -> Result<T, ParseError<'static>> {
    Err(ParseError { input, kind })
}

fn num(value: i64) -> Node<'static> {
    Node::LitInt(value)
}

fn name(text: &'static str) -> Node<'static> {
    Node::Ident(text)
}

fn bin(op: Operator, lhs: Node<'static>, rhs: Node<'static>) -> Node<'static> {
    Node::BinExpr { op, lhs: Box::new(lhs), rhs: Box::new(rhs) }
}

fn user(text: &'static str) -> Node<'static> {
    Node::Type(ExprType::UserDefined(text))
}

fn param(text: &'static str, ty: Node<'static>) -> Node<'static> {
    Node::FnParam { name: Box::new(name(text)), ty: Box::new(ty) }
}

fn function(args: Vec<Node<'static>>, ret: Option<Node<'static>>) -> Node<'static> {
    Node::FnDecl { args, ret: ret.map(Box::new) }
}

fn function_type(args: Vec<Node<'static>>, ret: Option<Node<'static>>) -> Node<'static> {
    Node::Type(ExprType::Fn(Box::new(function(args, ret))))
}

#[test]
fn operators_of_the_two_tiers() {
    assert_eq!(operator_for(Tier::Multiplicative, '*'), Some(Operator::Mul));
    assert_eq!(operator_for(Tier::Multiplicative, '/'), Some(Operator::Div));
    assert_eq!(operator_for(Tier::Multiplicative, '+'), None);
    assert_eq!(operator_for(Tier::Multiplicative, '-'), None);
    assert_eq!(operator_for(Tier::Additive, '+'), Some(Operator::Add));
    assert_eq!(operator_for(Tier::Additive, '-'), Some(Operator::Sub));
    assert_eq!(operator_for(Tier::Additive, '*'), None);
    assert_eq!(operator_for(Tier::Additive, '/'), None);
    assert_eq!(operator_for(Tier::Additive, 'x'), None);
    assert_eq!(constness_for(':'), Some(Constness::Const));
    assert_eq!(constness_for('='), Some(Constness::Mut));
    assert_eq!(constness_for(' '), None);
}

#[test]
fn left_associativity() {
    assert_eq!(
        Parser::parse_expr("1 - 2 - 3"),
        Ok(("", bin(Operator::Sub, bin(Operator::Sub, num(1), num(2)), num(3))))
    );
    assert_eq!(
        Parser::parse_expr("8 / 4 / 2"),
        Ok(("", bin(Operator::Div, bin(Operator::Div, num(8), num(4)), num(2))))
    );
    assert_eq!(
        Parser::parse_expr("a+b-c+d"),
        Ok((
            "",
            bin(
                Operator::Add,
                bin(Operator::Sub, bin(Operator::Add, name("a"), name("b")), name("c")),
                name("d")
            )
        ))
    );
}

#[test]
fn precedence() {
    assert_eq!(
        Parser::parse_expr("1 + 2 * 3"),
        Ok(("", bin(Operator::Add, num(1), bin(Operator::Mul, num(2), num(3)))))
    );
    assert_eq!(
        Parser::parse_expr("1 * 2 + 3"),
        Ok(("", bin(Operator::Add, bin(Operator::Mul, num(1), num(2)), num(3))))
    );
    assert_eq!(
        Parser::parse_expr("1 * 2 + 3 / 4 - 5"),
        Ok((
            "",
            bin(
                Operator::Sub,
                bin(
                    Operator::Add,
                    bin(Operator::Mul, num(1), num(2)),
                    bin(Operator::Div, num(3), num(4))
                ),
                num(5)
            )
        ))
    );
}

#[test]
fn parentheses_group() {
    assert_eq!(
        Parser::parse_expr("(1 + 2) * 3"),
        Ok(("", bin(Operator::Mul, bin(Operator::Add, num(1), num(2)), num(3))))
    );
    assert_eq!(
        Parser::parse_expr("1 - (2 - 3)"),
        Ok(("", bin(Operator::Sub, num(1), bin(Operator::Sub, num(2), num(3)))))
    );
    assert_eq!(Parser::parse_paren_expr("( x )y"), Ok(("y", name("x"))));
    assert_eq!(Parser::parse_paren_expr("((x))"), Ok(("", name("x"))));
    assert_eq!(Parser::parse_paren_expr("({})"), Ok(("", Node::BlockExpr(vec![]))));
    assert_eq!(Parser::parse_paren_expr("x"), err("x", ErrorKind::Char));
    assert_eq!(Parser::parse_paren_expr("(x"), err("", ErrorKind::Char));
    assert_eq!(Parser::parse_paren_expr("(x]"), err("]", ErrorKind::Char));
    assert_eq!(Parser::parse_paren_expr("()"), err(")", ErrorKind::Char));
}

#[test]
fn operands_take_the_whitespace_around_them() {
    assert_eq!(Parser::parse_expr("  1  "), Ok(("", num(1))));
    assert_eq!(
        Parser::parse_expr(" \t1\n+\r\n2 ;"),
        Ok((";", bin(Operator::Add, num(1), num(2))))
    );
    assert_eq!(
        Parser::parse_bin_multiplicative("2*x + 1"),
        Ok(("+ 1", bin(Operator::Mul, num(2), name("x"))))
    );
    assert_eq!(
        Parser::parse_bin_additive("2*x + 1)"),
        Ok((")", bin(Operator::Add, bin(Operator::Mul, num(2), name("x")), num(1))))
    );
    assert_eq!(Parser::parse_bin_multiplicative("x"), Ok(("", name("x"))));
}

#[test]
fn a_minus_sign_is_an_operator_behind_an_operand() {
    assert_eq!(Parser::parse_expr("1 -2"), Ok(("", bin(Operator::Sub, num(1), num(2)))));
    assert_eq!(Parser::parse_expr("1 - -2"), Ok(("", bin(Operator::Sub, num(1), num(-2)))));
    assert_eq!(Parser::parse_expr("-1"), Ok(("", num(-1))));
}

#[test]
fn an_operator_without_operand_fails_the_expression() {
    assert_eq!(Parser::parse_bin_additive("1 +"), err("", ErrorKind::Digit));
    assert_eq!(Parser::parse_bin_additive("1 * )"), err(")", ErrorKind::Digit));
    assert_eq!(Parser::parse_expr("1 +"), err("1 +", ErrorKind::Char));
    assert_eq!(Parser::parse_expr("1 + * 2"), err("1 + * 2", ErrorKind::Char));
    assert_eq!(Parser::parse_expr(""), err("", ErrorKind::Char));
    assert_eq!(Parser::parse_expr("+"), err("+", ErrorKind::Char));
}

#[test]
fn primary_alternatives_in_order() {
    assert_eq!(Parser::parse_primary("(a)"), Ok(("", name("a"))));
    assert_eq!(Parser::parse_primary("a1+"), Ok(("+", name("a1"))));
    assert_eq!(Parser::parse_primary("'x'"), Ok(("", Node::LitChr('x'))));
    assert_eq!(Parser::parse_primary(" a"), err(" a", ErrorKind::Digit));
    assert_eq!(Parser::parse_primary("{}"), err("{}", ErrorKind::Digit));
}

#[test]
fn blocks() {
    assert_eq!(Parser::parse_fn_block("{}"), Ok(("", Node::BlockExpr(vec![]))));
    assert_eq!(
        Parser::parse_fn_block("{ a :: 1 }x"),
        Ok((
            "x",
            Node::BlockExpr(vec![Node::StmtExpr {
                constness: Constness::Const,
                name: Box::new(name("a")),
                ty: None,
                expr: Box::new(num(1)),
            }])
        ))
    );
    let (rest, node) = Parser::parse_expr("{a := 1 b := a * 2\n c :: {}}").unwrap();
    assert_eq!(rest, "");
    match node {
        Node::BlockExpr(items) => {
            assert_eq!(items.len(), 3);
            assert_eq!(
                items[1],
                Node::StmtExpr {
                    constness: Constness::Mut,
                    name: Box::new(name("b")),
                    ty: None,
                    expr: Box::new(bin(Operator::Mul, name("a"), num(2))),
                }
            );
            assert_eq!(
                items[2],
                Node::StmtExpr {
                    constness: Constness::Const,
                    name: Box::new(name("c")),
                    ty: None,
                    expr: Box::new(Node::BlockExpr(vec![])),
                }
            );
        }
        other => panic!("no block: {other:?}"),
    }
    // the whitespace in a block belongs to its statements
    assert_eq!(Parser::parse_fn_block("{ }"), err(" }", ErrorKind::Char));
    assert_eq!(Parser::parse_fn_block("x"), err("x", ErrorKind::Char));
    assert_eq!(Parser::parse_fn_block(""), err("", ErrorKind::Char));
}

#[test]
fn unterminated_block() {
    assert_eq!(Parser::parse_fn_block("{ a : 1 :"), err(" a : 1 :", ErrorKind::Char));
    assert_eq!(Parser::parse_expr("{ a : 1 :"), err(" a : 1 :", ErrorKind::Char));
    assert_eq!(Parser::parse_fn_block("{ a :: 1"), err("", ErrorKind::Char));
    assert_eq!(Parser::parse_fn_block("{ a :: 1 b"), err("b", ErrorKind::Char));
    assert_eq!(Parser::parse_fn_block("{"), err("", ErrorKind::Char));
    let source = "x :: { a : 1 :";
    let error = Parser::parse_module(source).unwrap_err();
    assert_eq!(error, ParseError { input: " a : 1 :", kind: ErrorKind::Char });
    assert_eq!(error.offset(source), 6);
}

#[test]
fn types() {
    assert_eq!(Parser::parse_type("s64 "), Ok((" ", Node::Type(ExprType::S64))));
    assert_eq!(Parser::parse_type("u64"), Ok(("", Node::Type(ExprType::U64))));
    assert_eq!(Parser::parse_type("d64:"), Ok((":", Node::Type(ExprType::D64))));
    assert_eq!(Parser::parse_type("bool"), Ok(("", user("bool"))));
    assert_eq!(Parser::parse_type("s64x"), Ok(("", user("s64x"))));
    assert_eq!(Parser::parse_type("Point_2d = 1"), Ok((" = 1", user("Point_2d"))));
    assert_eq!(Parser::parse_type("fnord"), Ok(("", user("fnord"))));
    assert_eq!(Parser::parse_type("fn"), Ok(("", user("fn"))));
    assert_eq!(Parser::parse_type("fn()"), Ok(("", function_type(vec![], None))));
    assert_eq!(Parser::parse_type("1"), err("1", ErrorKind::Alphabetic));
    assert_eq!(Parser::parse_type(""), err("", ErrorKind::Eof));
    assert_eq!(Parser::parse_type(" s64"), err(" s64", ErrorKind::Alphabetic));
}

#[test]
fn function_types() {
    assert_eq!(Parser::parse_fn_ty("fn()"), Ok(("", function(vec![], None))));
    assert_eq!(Parser::parse_fn_ty("fn ( )x"), Ok(("x", function(vec![], None))));
    assert_eq!(
        Parser::parse_fn_ty("fn() -> s64 :"),
        Ok((" :", function(vec![], Some(Node::Type(ExprType::S64)))))
    );
    assert_eq!(
        Parser::parse_fn_ty("fn(a : s64, b:u64 ,c : T)->d64"),
        Ok((
            "",
            function(
                vec![
                    param("a", Node::Type(ExprType::S64)),
                    param("b", Node::Type(ExprType::U64)),
                    param("c", user("T")),
                ],
                Some(Node::Type(ExprType::D64))
            )
        ))
    );
    assert_eq!(
        Parser::parse_fn_ty("fn(f : fn(x : s64) -> s64) -> fn() -> u64"),
        Ok((
            "",
            function(
                vec![param(
                    "f",
                    function_type(
                        vec![param("x", Node::Type(ExprType::S64))],
                        Some(Node::Type(ExprType::S64))
                    )
                )],
                Some(function_type(vec![], Some(Node::Type(ExprType::U64))))
            )
        ))
    );
    // an arrow that no type follows is left where it stands
    assert_eq!(Parser::parse_fn_ty("fn() -> 5"), Ok((" -> 5", function(vec![], None))));
    assert_eq!(Parser::parse_fn_ty("fn() - > s64"), Ok((" - > s64", function(vec![], None))));
    assert_eq!(Parser::parse_fn_ty("f()"), err("f()", ErrorKind::Tag));
    assert_eq!(Parser::parse_fn_ty("fn x"), err("x", ErrorKind::Char));
    assert_eq!(Parser::parse_fn_ty("fn("), err("", ErrorKind::Char));
    assert_eq!(Parser::parse_fn_ty("fn(a)"), err("a)", ErrorKind::Char));
    // the list ends before whitespace and before a comma that no parameter follows
    assert_eq!(Parser::parse_fn_ty("fn(a : s64 )"), err(" )", ErrorKind::Char));
    assert_eq!(Parser::parse_fn_ty("fn(a : s64, )"), err(", )", ErrorKind::Char));
    assert_eq!(Parser::parse_fn_ty("fn(a : s64 b : s64)"), err(" b : s64)", ErrorKind::Char));
}

#[test]
fn parameters() {
    assert_eq!(Parser::parse_param("a : s64,"), Ok((",", param("a", Node::Type(ExprType::S64)))));
    assert_eq!(Parser::parse_param("a:T"), Ok(("", param("a", user("T")))));
    assert_eq!(Parser::parse_param("a \n:\t T )"), Ok((" )", param("a", user("T")))));
    assert_eq!(Parser::parse_param("a s64"), err("s64", ErrorKind::Tag));
    assert_eq!(Parser::parse_param("a :"), err("", ErrorKind::Eof));
    assert_eq!(Parser::parse_param("a : 1"), err("1", ErrorKind::Alphabetic));
    assert_eq!(Parser::parse_param(": s64"), err(": s64", ErrorKind::Alphabetic));
}

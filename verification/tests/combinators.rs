//! The whole grammar, written once more with the parser combinators of
//! `nom`, and the parser held against it on a corpus of texts.

use std::borrow::Cow;

use expr_lang::{Constness, ErrorKind, ExprType, Node, Operator, ParseError, Parser};
use nom::branch::alt;
use nom::bytes::complete::{is_not, tag, take};
use nom::character::complete::{alphanumeric1, anychar, char, digit1, multispace0, satisfy};
use nom::combinator;
use nom::combinator::{all_consuming, map_opt, map_res, opt, recognize, value, verify};
use nom::error::ErrorKind as Code;
use nom::multi::{fold_many_m_n, many0, many0_count, many1, separated_list0};
use nom::sequence::{delimited, pair, preceded, separated_pair, terminated, tuple};
use nom::IResult;

type Tree<'a> = IResult<&'a str, Node<'a>>;

fn ident_raw(input: &str) -> IResult<&str, &str> {
    recognize(pair(
        verify(anychar, |c: &char| c.is_alphabetic()),
        many0_count(preceded(opt(char('_')), alphanumeric1)),
    ))(input)
}

fn ident(input: &str) -> Tree<'_> {
    combinator::map(ident_raw, Node::Ident)(input)
}

fn escaped_unicode(input: &str) -> IResult<&str, char> {
    preceded(
        char('u'),
        map_opt(
            combinator::map(
                recognize(fold_many_m_n(
                    4,
                    4,
                    satisfy(|c| c.is_ascii_hexdigit()),
                    || {},
                    |(), _c| (),
                )),
                |s| u32::from_str_radix(s, 16).unwrap(),
            ),
            char::from_u32,
        ),
    )(input)
}

fn escaped_chr(input: &str) -> IResult<&str, char> {
    preceded(
        char('\\'),
        alt((
            value('/', char('/')),
            value('"', char('"')),
            value('\'', char('\'')),
            value('\\', char('\\')),
            value('\n', char('n')),
            value('\r', char('r')),
            value('\t', char('t')),
            escaped_unicode,
        )),
    )(input)
}

fn single_unescaped_chr(input: &str) -> IResult<&str, char> {
    map_opt(take(1usize), |s: &str| match s.chars().next() {
        Some('\'') => None,
        Some(c) => Some(c),
        _ => None,
    })(input)
}

enum Fragment<'f> {
    Unescaped(&'f str),
    Escaped(char),
}

fn str_fragment(input: &str) -> IResult<&str, Fragment<'_>> {
    alt((
        combinator::map(escaped_chr, Fragment::Escaped),
        combinator::map(is_not("\"\\"), Fragment::Unescaped),
    ))(input)
}

fn lit_str(input: &str) -> Tree<'_> {
    let mut result = Cow::Borrowed("");
    let (mut input, _) = char('"')(input)?;
    loop {
        if let Ok((tail, _)) = char::<&str, nom::error::Error<&str>>('"')(input) {
            return Ok((tail, Node::LitStr(result)));
        }
        let (tail, fragment) = str_fragment(input)?;
        match fragment {
            Fragment::Escaped(c) => result.to_mut().push(c),
            Fragment::Unescaped(s) => {
                if result.is_empty() {
                    result = Cow::Borrowed(s);
                } else {
                    result.to_mut().push_str(s);
                }
            }
        }
        input = tail;
    }
}

fn lit_chr(input: &str) -> Tree<'_> {
    combinator::map(
        delimited(char('\''), alt((escaped_chr, single_unescaped_chr)), char('\'')),
        Node::LitChr,
    )(input)
}

fn lit_dec(input: &str) -> Tree<'_> {
    map_res(
        recognize(tuple((
            opt(char('-')),
            digit1,
            opt(tuple((char('.'), digit1))),
            opt(tuple((alt((char('e'), char('E'))), opt(alt((char('+'), char('-'))))))),
            digit1,
        ))),
        |s: &str| s.parse::<f64>().map(|_| Node::LitDec(s)),
    )(input)
}

fn lit_int(input: &str) -> Tree<'_> {
    map_res(recognize(tuple((opt(char('-')), digit1))), |s: &str| s.parse().map(Node::LitInt))(
        input,
    )
}

fn lit(input: &str) -> Tree<'_> {
    alt((lit_str, lit_chr, lit_dec, lit_int))(input)
}

fn type_expr(input: &str) -> Tree<'_> {
    alt((
        combinator::map(fn_ty, |node| Node::Type(ExprType::Fn(Box::new(node)))),
        combinator::map(ident_raw, |s: &str| match s {
            "s64" => Node::Type(ExprType::S64),
            "u64" => Node::Type(ExprType::U64),
            "d64" => Node::Type(ExprType::D64),
            _ => Node::Type(ExprType::UserDefined(s)),
        }),
    ))(input)
}

fn param(input: &str) -> Tree<'_> {
    combinator::map(
        separated_pair(ident, separated_pair(multispace0, tag(":"), multispace0), type_expr),
        |(name, ty)| Node::FnParam { name: Box::new(name), ty: Box::new(ty) },
    )(input)
}

fn fn_ty(input: &str) -> Tree<'_> {
    combinator::map(
        pair(
            preceded(
                terminated(tag("fn"), multispace0),
                delimited(
                    terminated(char('('), multispace0),
                    separated_list0(separated_pair(multispace0, tag(","), multispace0), param),
                    char(')'),
                ),
            ),
            opt(preceded(separated_pair(multispace0, tag("->"), multispace0), type_expr)),
        ),
        |(args, ret)| Node::FnDecl { args, ret: ret.map(Box::new) },
    )(input)
}

fn tier<'a>(
    input: &'a str,
    operand: fn(&'a str) -> Tree<'a>,
    operator: fn(char) -> Option<Operator>,
) -> Tree<'a> {
    let (mut input, mut lhs) = delimited(multispace0, operand, multispace0)(input)?;
    loop {
        let op = match input.chars().next().and_then(operator) {
            Some(op) => op,
            None => return Ok((input, lhs)),
        };
        let (tail, rhs) = delimited(multispace0, operand, multispace0)(&input[1..])?;
        lhs = Node::BinExpr { op, lhs: Box::new(lhs), rhs: Box::new(rhs) };
        input = tail;
    }
}

fn multiplicative(input: &str) -> Tree<'_> {
    tier(input, primary, |c| match c {
        '*' => Some(Operator::Mul),
        '/' => Some(Operator::Div),
        _ => None,
    })
}

fn additive(input: &str) -> Tree<'_> {
    tier(input, multiplicative, |c| match c {
        '+' => Some(Operator::Add),
        '-' => Some(Operator::Sub),
        _ => None,
    })
}

fn paren_expr(input: &str) -> Tree<'_> {
    delimited(char('('), expr, char(')'))(input)
}

fn primary(input: &str) -> Tree<'_> {
    alt((paren_expr, ident, lit))(input)
}

fn block(input: &str) -> Tree<'_> {
    combinator::map(
        delimited(char('{'), many0(delimited(multispace0, stmt, multispace0)), char('}')),
        Node::BlockExpr,
    )(input)
}

fn expr(input: &str) -> Tree<'_> {
    alt((additive, block))(input)
}

fn stmt(input: &str) -> Tree<'_> {
    combinator::map(
        tuple((
            terminated(terminated(ident, multispace0), tag(":")),
            opt(delimited(multispace0, type_expr, multispace0)),
            terminated(
                map_opt(take(1usize), |s| match s {
                    ":" => Some(Constness::Const),
                    "=" => Some(Constness::Mut),
                    _ => None,
                }),
                multispace0,
            ),
            expr,
        )),
        |(name, ty, constness, expr)| Node::StmtExpr {
            constness,
            name: Box::new(name),
            ty: ty.map(Box::new),
            expr: Box::new(expr),
        },
    )(input)
}

fn module(input: &str) -> Tree<'_> {
    all_consuming(combinator::map(
        many1(delimited(multispace0, stmt, multispace0)),
        Node::Module,
    ))(input)
}

/// Whether the kind of an error is the one that the combinators name so.
fn kinds_agree(code: Code, kind: ErrorKind) -> bool {
    match kind {
        ErrorKind::Eof => code == Code::Eof,
        ErrorKind::Char => code == Code::Char,
        ErrorKind::Tag => code == Code::Tag,
        ErrorKind::Digit => code == Code::Digit,
        ErrorKind::HexDigit => code == Code::Satisfy,
        ErrorKind::Alphabetic => code == Code::Verify,
        ErrorKind::StrFragment => code == Code::IsNot,
        ErrorKind::BareQuote | ErrorKind::Constness | ErrorKind::Scalar => code == Code::MapOpt,
        ErrorKind::IntRange => code == Code::MapRes,
    }
}

fn agree<'a>(
    rule: &str,
    input: &'a str,
    ours: Result<(&'a str, Node<'a>), ParseError<'a>>,
    theirs: Tree<'a>,
) {
    match (ours, theirs) {
        (Ok(ours), Ok(theirs)) => {
            assert_eq!(ours, theirs, "{rule} on {input:?}");
            assert_eq!(
                borrowed_literals(&ours.1),
                borrowed_literals(&theirs.1),
                "{rule} on {input:?}"
            );
        }
        (Err(ours), Err(nom::Err::Error(theirs))) => {
            assert_eq!(ours.input, theirs.input, "place of the failure of {rule} on {input:?}");
            assert!(
                kinds_agree(theirs.code, ours.kind),
                "kind of the failure of {rule} on {input:?}: {:?} and {:?}",
                ours.kind,
                theirs.code
            );
        }
        (ours, theirs) => panic!("{rule} on {input:?}: {ours:?} and {theirs:?}"),
    }
}

/// How many string literals of the tree are slices of the source.
fn borrowed_literals(node: &Node) -> usize {
    fn all(nodes: &[Node]) -> usize {
        nodes.iter().map(borrowed_literals).sum()
    }
    match node {
        Node::Module(items) | Node::BlockExpr(items) => all(items),
        Node::StmtExpr { name, ty, expr, .. } => {
            borrowed_literals(name)
                + ty.as_deref().map_or(0, borrowed_literals)
                + borrowed_literals(expr)
        }
        Node::BinExpr { lhs, rhs, .. } => borrowed_literals(lhs) + borrowed_literals(rhs),
        Node::UnExpr { child, .. } => borrowed_literals(child),
        Node::FnDecl { args, ret } => all(args) + ret.as_deref().map_or(0, borrowed_literals),
        Node::FnParam { name, ty } => borrowed_literals(name) + borrowed_literals(ty),
        Node::FnCall { name, args } => borrowed_literals(name) + all(args),
        Node::Type(ExprType::Fn(decl)) => borrowed_literals(decl),
        Node::LitStr(Cow::Borrowed(_)) => 1,
        _ => 0,
    }
}

const CORPUS: [&str; 96] = [
    "",
    " ",
    " \n\t",
    "a",
    "a :",
    "a ::",
    "a :: 1",
    "a := 1",
    "a : 1",
    "a :1",
    "a:=1",
    "a::1",
    "a = 1",
    "a : T : v",
    "a : T = v",
    "a : T",
    "a : T ; v",
    "n : v",
    "n := v",
    "a :: 1 b :: 2",
    "a :: 1\nb := 2\n",
    "a :: 1 garbage",
    "a :: 1 }",
    "  a :: 1  ",
    "_a :: 1",
    "foo_1 :: 1",
    "foo__1 :: 1",
    "foo_ :: 1",
    "é :: 'é'",
    "1",
    "42",
    "-42",
    "--42",
    "- 42",
    "12.5",
    "12.5e3",
    "1e5",
    "1E-5x",
    "1e+",
    "9223372036854775807",
    "9223372036854775808",
    "-9223372036854775808",
    "-9223372036854775809",
    "1 - 2 - 3",
    "1 + 2 * 3",
    "1 * 2 + 3",
    "(1 + 2) * 3",
    "1 +",
    "1 + * 2",
    "1 -2",
    "a/b/c*d",
    " ( a ) ",
    "((((x))))",
    "(x",
    "()",
    "x)",
    "{}",
    "{ }",
    "{ a :: 1 }",
    "{a::1 b:=2}",
    "{ a : 1 :",
    "{ a :: { b :: {} } }",
    "{ a :: 1",
    "\"abc\"",
    "\"abc",
    "\"\"",
    "\"a\\nb\"",
    "\"a\\qb\"",
    "\"\\u0041\"",
    "\"\\uFFFF\"",
    "\"\\uD800\"",
    "\"\\u00G1\"",
    "\"\\u004\"",
    "\"x\\\"y\\\\z\\/\"",
    "\"tab\\there\" + 1",
    "'a'",
    "'\\n'",
    "'\\''",
    "''",
    "'ab'",
    "'",
    "'\\u0041'",
    "'\\uDFFF'",
    "s64",
    "fn",
    "fnord",
    "fn()",
    "fn ( )",
    "fn() -> s64",
    "fn() -> 5",
    "fn(a : s64, b : u64) -> d64",
    "fn(a : s64 )",
    "fn(a : s64, )",
    "fn(f : fn(x : T) -> T, g : fn()) -> fn() -> u64",
    "f : fn(a : s64) -> s64 : { r :: a * 2 }",
    "x : fn( = 1",
];

#[test]
fn modules_as_the_combinators_read_them() {
    for input in CORPUS {
        agree("module", input, Parser::parse_module(input), module(input));
    }
}

#[test]
fn statements_as_the_combinators_read_them() {
    for input in CORPUS {
        agree("statement", input, Parser::parse_stmt_expr(input), stmt(input));
        agree("top level", input, Parser::parse_toplevel(input), stmt(input));
    }
}

#[test]
fn expressions_as_the_combinators_read_them() {
    for input in CORPUS {
        agree("expression", input, Parser::parse_expr(input), expr(input));
        agree("additive", input, Parser::parse_bin_additive(input), additive(input));
        agree(
            "multiplicative",
            input,
            Parser::parse_bin_multiplicative(input),
            multiplicative(input),
        );
        agree("primary", input, Parser::parse_primary(input), primary(input));
        agree("parentheses", input, Parser::parse_paren_expr(input), paren_expr(input));
        agree("block", input, Parser::parse_fn_block(input), block(input));
    }
}

#[test]
fn types_as_the_combinators_read_them() {
    for input in CORPUS {
        agree("type", input, Parser::parse_type(input), type_expr(input));
        agree("function type", input, Parser::parse_fn_ty(input), fn_ty(input));
        agree("parameter", input, Parser::parse_param(input), param(input));
    }
}

#[test]
fn literals_as_the_combinators_read_them() {
    for input in CORPUS {
        agree("literal", input, Parser::parse_lit(input), lit(input));
        agree("string", input, Parser::parse_lit_str(input), lit_str(input));
        agree("character", input, Parser::parse_lit_chr(input), lit_chr(input));
        agree("decimal", input, Parser::parse_lit_dec(input), lit_dec(input));
        agree("integer", input, Parser::parse_lit_int(input), lit_int(input));
        agree("identifier", input, Parser::parse_ident(input), ident(input));
    }
}

#[test]
fn suffixes_of_the_corpus_as_the_combinators_read_them() {
    for input in CORPUS {
        for (at, _) in input.char_indices() {
            let tail = &input[at..];
            agree("statement", tail, Parser::parse_stmt_expr(tail), stmt(tail));
            agree("expression", tail, Parser::parse_expr(tail), expr(tail));
            agree("type", tail, Parser::parse_type(tail), type_expr(tail));
            agree("literal", tail, Parser::parse_lit(tail), lit(tail));
        }
    }
}

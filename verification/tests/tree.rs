use std::borrow::Cow;

use expr_lang::{Constness, ExprType, Node, Operator};

#[test]
fn it_works() {
    let ty = Node::FnDecl { args: vec![], ret: None };

    let print = Node::FnCall {
        name: Box::new(Node::Ident("println")),
        args: vec![
            Node::LitStr(Cow::Borrowed("Hellol {}")),
            Node::LitStr(Cow::Borrowed("Asher")),
        ],
    };

    let statements = Node::BlockExpr(vec![print]);

    let entry_fn = Node::StmtExpr {
        constness: Constness::Const,
        name: Box::new(Node::Ident("entry")),
        ty: Some(Box::new(ty)),
        expr: Box::new(statements),
    };

    let module = Node::Module(vec![entry_fn]);

    println!("{module:#?}");
}

#[test]
fn constructors_build_the_variants_they_name() {
    assert_eq!(Node::ident("x"), Node::Ident("x"));
    assert_eq!(Node::lit_chr('c'), Node::LitChr('c'));
    assert_eq!(Node::lit_int(-3), Node::LitInt(-3));
    assert_eq!(Node::lit_dec("1e3"), Node::LitDec("1e3"));
    assert_eq!(Node::lit_str(Cow::Borrowed("s")), Node::LitStr(Cow::Borrowed("s")));
    assert_eq!(
        Node::bin(Operator::Add, Node::LitInt(1), Node::LitInt(2)),
        Node::BinExpr {
            op: Operator::Add,
            lhs: Box::new(Node::LitInt(1)),
            rhs: Box::new(Node::LitInt(2)),
        }
    );
    assert_eq!(
        Node::stmt(Constness::Mut, Node::Ident("a"), None, Node::LitInt(1)),
        Node::StmtExpr {
            constness: Constness::Mut,
            name: Box::new(Node::Ident("a")),
            ty: None,
            expr: Box::new(Node::LitInt(1)),
        }
    );
    assert_eq!(
        Node::fn_decl(vec![], Some(Node::Type(ExprType::S64))),
        Node::FnDecl { args: vec![], ret: Some(Box::new(Node::Type(ExprType::S64))) }
    );
    assert_eq!(
        Node::fn_param(Node::Ident("a"), Node::Type(ExprType::U64)),
        Node::FnParam {
            name: Box::new(Node::Ident("a")),
            ty: Box::new(Node::Type(ExprType::U64)),
        }
    );
    assert_eq!(Node::block(vec![]), Node::BlockExpr(vec![]));
    assert_eq!(Node::module(vec![Node::LitInt(1)]), Node::Module(vec![Node::LitInt(1)]));
    assert_eq!(Node::ty(ExprType::D64), Node::Type(ExprType::D64));
}

#[test]
fn named_types_map_to_primitives_or_stay_names() {
    assert_eq!(ExprType::named("s64"), ExprType::S64);
    assert_eq!(ExprType::named("u64"), ExprType::U64);
    assert_eq!(ExprType::named("d64"), ExprType::D64);
    assert_eq!(ExprType::named("bool"), ExprType::UserDefined("bool"));
    assert_eq!(ExprType::named("s6"), ExprType::UserDefined("s6"));
    assert_eq!(ExprType::named("s644"), ExprType::UserDefined("s644"));
    assert_eq!(ExprType::named("Point"), ExprType::UserDefined("Point"));
}

#[test]
fn function_type_wraps_its_declaration() {
    assert_eq!(
        ExprType::function(Node::FnDecl { args: vec![], ret: None }),
        ExprType::Fn(Box::new(Node::FnDecl { args: vec![], ret: None }))
    );
}

//! The syntax tree.
//!
//! [`Node`] is what the parser builds: it borrows identifiers and escape-free
//! string literals from the source text. [`Tree`] is the same tree as a
//! mathematical value, with every text fragment as a sequence of characters;
//! it is what contracts speak about.

use vstd::prelude::*;
use std::borrow::Cow;
use crate::text::str_eq;

verus! {

/// A binary arithmetic operator.
#[derive(Debug, Clone, Copy, PartialEq, Eq, Structural)]
pub enum Operator {
    Add,
    Sub,
    Mul,
    Div,
}

/// Whether a binding may be reassigned after its declaration.
#[derive(Debug, Clone, Copy, PartialEq, Eq, Structural)]
pub enum Constness {
    Const,
    Mut,
}

/// An owned child slot of a node.
pub type NodeRef<'n> = Box<Node<'n>>;

/// A type ascription.
#[derive(Debug, PartialEq, Eq)]
pub enum ExprType<'t> {
    /// A function type; the child is a [`Node::FnDecl`].
    Fn(NodeRef<'t>),
    /// A type referred to by name, not yet resolved.
    UserDefined(&'t str),
    S64,
    U64,
    D64,
    Bool,
}

/// One element of the syntax tree.
#[derive(Debug, PartialEq, Eq)]
#[allow(inconsistent_fields)]
pub enum Node<'n> {
    /// The top-level statements of a compilation unit, in source order.
    Module(Vec<Node<'n>>),
    /// The statements between a pair of braces, in source order.
    BlockExpr(Vec<Node<'n>>),
    /// A named binding.
    StmtExpr {
        constness: Constness,
        name: NodeRef<'n>,
        ty: Option<NodeRef<'n>>,
        expr: NodeRef<'n>,
    },
    BinExpr { op: Operator, lhs: NodeRef<'n>, rhs: NodeRef<'n> },
    UnExpr { op: Operator, child: NodeRef<'n> },
    /// A function type: its parameters and, where given, its return type.
    FnDecl { args: Vec<Node<'n>>, ret: Option<NodeRef<'n>> },
    FnParam { name: NodeRef<'n>, ty: NodeRef<'n> },
    FnCall { name: NodeRef<'n>, args: Vec<Node<'n>> },
    Type(ExprType<'n>),
    /// A string literal: borrowed from the source while it holds no escape,
    /// owned once an escape had to be decoded.
    LitStr(Cow<'n, str>),
    LitChr(char),
    /// A decimal literal, kept as the text that was recognised.
    LitDec(&'n str),
    LitInt(i64),
    LitBool(bool),
    Ident(&'n str),
}

/// A type ascription as a mathematical value.
pub enum TypeTree {
    Fn(Box<Tree>),
    UserDefined(Seq<char>),
    S64,
    U64,
    D64,
    Bool,
}

/// A syntax tree as a mathematical value.
#[allow(inconsistent_fields)]
pub enum Tree {
    Module(Seq<Tree>),
    BlockExpr(Seq<Tree>),
    StmtExpr { constness: Constness, name: Box<Tree>, ty: Option<Box<Tree>>, expr: Box<Tree> },
    BinExpr { op: Operator, lhs: Box<Tree>, rhs: Box<Tree> },
    UnExpr { op: Operator, child: Box<Tree> },
    FnDecl { args: Seq<Tree>, ret: Option<Box<Tree>> },
    FnParam { name: Box<Tree>, ty: Box<Tree> },
    FnCall { name: Box<Tree>, args: Seq<Tree> },
    Type(TypeTree),
    /// `owned` tells whether the literal was copied out of the source.
    LitStr { text: Seq<char>, owned: bool },
    LitChr(char),
    LitDec(Seq<char>),
    LitInt(int),
    LitBool(bool),
    Ident(Seq<char>),
}

/// The trees of a list of nodes, in order.
pub open spec fn trees_of(nodes: Seq<Node<'_>>) -> Seq<Tree>
    decreases nodes, 0nat,
{
    Seq::new(
        nodes.len(),
        |i: int|
            if 0 <= i < nodes.len() {
                tree_of(nodes[i])
            } else {
                Tree::LitBool(false)
            },
    )
}

/// The tree in an optional child slot.
pub open spec fn tree_of_slot(slot: Option<NodeRef<'_>>) -> Option<Box<Tree>>
    decreases slot, 0nat,
{
    match slot {
        Some(node) => Some(Box::new(tree_of(*node))),
        None => None,
    }
}

/// The type ascription as a mathematical value.
pub open spec fn type_tree_of(ty: ExprType<'_>) -> TypeTree
    decreases ty, 0nat,
{
    match ty {
        ExprType::Fn(decl) => TypeTree::Fn(Box::new(tree_of(*decl))),
        ExprType::UserDefined(name) => TypeTree::UserDefined(name@),
        ExprType::S64 => TypeTree::S64,
        ExprType::U64 => TypeTree::U64,
        ExprType::D64 => TypeTree::D64,
        ExprType::Bool => TypeTree::Bool,
    }
}

/// The node and everything below it as a mathematical value.
pub open spec fn tree_of(node: Node<'_>) -> Tree
    decreases node, 1nat,
{
    match node {
        Node::Module(items) => Tree::Module(trees_of(items@)),
        Node::BlockExpr(items) => Tree::BlockExpr(trees_of(items@)),
        Node::StmtExpr { constness, name, ty, expr } => Tree::StmtExpr {
            constness,
            name: Box::new(tree_of(*name)),
            ty: tree_of_slot(ty),
            expr: Box::new(tree_of(*expr)),
        },
        Node::BinExpr { op, lhs, rhs } => Tree::BinExpr {
            op,
            lhs: Box::new(tree_of(*lhs)),
            rhs: Box::new(tree_of(*rhs)),
        },
        Node::UnExpr { op, child } => Tree::UnExpr { op, child: Box::new(tree_of(*child)) },
        Node::FnDecl { args, ret } => Tree::FnDecl {
            args: trees_of(args@),
            ret: tree_of_slot(ret),
        },
        Node::FnParam { name, ty } => Tree::FnParam {
            name: Box::new(tree_of(*name)),
            ty: Box::new(tree_of(*ty)),
        },
        Node::FnCall { name, args } => Tree::FnCall {
            name: Box::new(tree_of(*name)),
            args: trees_of(args@),
        },
        Node::Type(ty) => Tree::Type(type_tree_of(ty)),
        Node::LitStr(text) => Tree::LitStr { text: text@, owned: text is Owned },
        Node::LitChr(c) => Tree::LitChr(c),
        Node::LitDec(text) => Tree::LitDec(text@),
        Node::LitInt(value) => Tree::LitInt(value as int),
        Node::LitBool(value) => Tree::LitBool(value),
        Node::Ident(name) => Tree::Ident(name@),
    }
}

impl<'t> View for ExprType<'t> {
    type V = TypeTree;

    open spec fn view(&self) -> TypeTree {
        type_tree_of(*self)
    }
}

impl<'n> View for Node<'n> {
    type V = Tree;

    open spec fn view(&self) -> Tree {
        tree_of(*self)
    }
}

/// The trees of a list that grew by one node are the trees of the list,
/// and the tree of that node behind them.
pub proof fn lemma_trees_of_push(nodes: Seq<Node<'_>>, node: Node<'_>)
    ensures
        trees_of(nodes.push(node)) == trees_of(nodes).push(node@),
{
    assert(trees_of(nodes.push(node)) =~= trees_of(nodes).push(node@));
}

/// No nodes, no trees.
pub proof fn lemma_trees_of_empty()
    ensures
        trees_of(Seq::<Node<'_>>::empty()) == Seq::<Tree>::empty(),
{
    assert(trees_of(Seq::<Node<'_>>::empty()) =~= Seq::<Tree>::empty());
}

/// The tree of a node that may be absent.
pub open spec fn tree_of_option(node: Option<Node<'_>>) -> Option<Box<Tree>> {
    match node {
        Some(node) => Some(Box::new(node@)),
        None => None,
    }
}

impl<'n> Node<'n> {
    /// An identifier with the given name.
    pub fn ident(name: &'n str) -> (node: Self)
        ensures
            node@ == Tree::Ident(name@),
    {
        Node::Ident(name)
    }

    /// A string literal with the given text.
    pub fn lit_str(text: Cow<'n, str>) -> (node: Self)
        ensures
            node@ == (Tree::LitStr { text: text@, owned: text is Owned }),
    {
        Node::LitStr(text)
    }

    /// A character literal.
    pub fn lit_chr(c: char) -> (node: Self)
        ensures
            node@ == Tree::LitChr(c),
    {
        Node::LitChr(c)
    }

    /// A decimal literal that reads `text` in the source.
    pub fn lit_dec(text: &'n str) -> (node: Self)
        ensures
            node@ == Tree::LitDec(text@),
    {
        Node::LitDec(text)
    }

    /// An integer literal.
    pub fn lit_int(value: i64) -> (node: Self)
        ensures
            node@ == Tree::LitInt(value as int),
    {
        Node::LitInt(value)
    }

    /// The type ascription `ty` as a node.
    pub fn ty(ty: ExprType<'n>) -> (node: Self)
        ensures
            node@ == Tree::Type(ty@),
    {
        Node::Type(ty)
    }

    /// The type of the functions from `args` to `ret`.
    pub fn fn_decl(args: Vec<Node<'n>>, ret: Option<Node<'n>>) -> (node: Self)
        ensures
            node@ == (Tree::FnDecl { args: trees_of(args@), ret: tree_of_option(ret) }),
    {
        let ghost tree = tree_of_option(ret);
        let ret = match ret {
            Some(ty) => Some(Box::new(ty)),
            None => None,
        };
        assert(tree_of_slot(ret) == tree);
        Node::FnDecl { args, ret }
    }

    /// The parameter `name` of type `ty`.
    pub fn fn_param(name: Node<'n>, ty: Node<'n>) -> (node: Self)
        ensures
            node@ == (Tree::FnParam { name: Box::new(name@), ty: Box::new(ty@) }),
    {
        Node::FnParam { name: Box::new(name), ty: Box::new(ty) }
    }

    /// The binding of `name` to `expr`, with its constness and, where one
    /// was written, its type.
    pub fn stmt(
        constness: Constness,
        name: Node<'n>,
        ty: Option<Node<'n>>,
        expr: Node<'n>,
    ) -> (node: Self)
        ensures
            node@ == (Tree::StmtExpr {
                constness,
                name: Box::new(name@),
                ty: tree_of_option(ty),
                expr: Box::new(expr@),
            }),
    {
        let ghost tree = tree_of_option(ty);
        let ty = match ty {
            Some(ty) => Some(Box::new(ty)),
            None => None,
        };
        assert(tree_of_slot(ty) == tree);
        Node::StmtExpr { constness, name: Box::new(name), ty, expr: Box::new(expr) }
    }

    /// The operator `op` applied to `lhs` and `rhs`.
    pub fn bin(op: Operator, lhs: Node<'n>, rhs: Node<'n>) -> (node: Self)
        ensures
            node@ == (Tree::BinExpr { op, lhs: Box::new(lhs@), rhs: Box::new(rhs@) }),
    {
        Node::BinExpr { op, lhs: Box::new(lhs), rhs: Box::new(rhs) }
    }

    /// The block of the statements `items`.
    pub fn block(items: Vec<Node<'n>>) -> (node: Self)
        ensures
            node@ == Tree::BlockExpr(trees_of(items@)),
    {
        Node::BlockExpr(items)
    }

    /// The module of the top-level statements `items`.
    pub fn module(items: Vec<Node<'n>>) -> (node: Self)
        ensures
            node@ == Tree::Module(trees_of(items@)),
    {
        Node::Module(items)
    }
}

impl<'t> ExprType<'t> {
    /// The function type that `decl` describes.
    pub fn function(decl: Node<'t>) -> (ty: Self)
        ensures
            ty@ == TypeTree::Fn(Box::new(decl@)),
    {
        ExprType::Fn(Box::new(decl))
    }

    /// The type of the given name: one of the primitive types, or else a
    /// type that the user defines.
    pub fn named(name: &'t str) -> (ty: Self)
        ensures
            ty@ == type_named(name@),
    {
        if str_eq(name, "s64") {
            ExprType::S64
        } else if str_eq(name, "u64") {
            ExprType::U64
        } else if str_eq(name, "d64") {
            ExprType::D64
        } else {
            ExprType::UserDefined(name)
        }
    }
}

/// The type that the name `name` stands for.
pub open spec fn type_named(name: Seq<char>) -> TypeTree {
    if name == "s64"@ {
        TypeTree::S64
    } else if name == "u64"@ {
        TypeTree::U64
    } else if name == "d64"@ {
        TypeTree::D64
    } else {
        TypeTree::UserDefined(name)
    }
}

} // verus!

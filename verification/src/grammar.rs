//! The rules of the language above the lexical level: types, expressions,
//! statements, blocks and the module.
//!
//! As in [`crate::lexical`], a rule is a function from the text that is left
//! to an [`Outcome`]. Rules call each other freely, and some of them repeat a
//! rule for as long as it succeeds. What makes these definitions well-founded
//! is that a rule never leaves more text than it was given, and that a
//! repeated rule leaves less. Where a rule continues behind another rule of
//! its own family, it asks for just that before it goes on. The question is
//! always answered with yes ([`lemma_type_rules_advance`],
//! [`lemma_expr_advances`] and the lemmas beside them), so it changes no
//! outcome: [`lemma_type_rules_unfold`] and [`lemma_expression_rules_unfold`]
//! give the rules without it.

use vstd::prelude::*;
use crate::ast::{type_named, Constness, Operator, Tree, TypeTree};
use crate::chars::CharClass;
use crate::error::{fail, ErrorKind, Outcome};
use crate::lexical::{
    expect_char, expect_tag, ident, ident_raw, lemma_expect_char, lemma_expect_tag, lemma_ident,
    lemma_lit, lemma_run_len, lemma_spaces, lemma_within_rest, lit, spaces, within,
};
use crate::text::{is_suffix_of, lemma_suffix_refl, lemma_suffix_skip, lemma_suffix_trans};

verus! {

/// The two levels of binary operators. The multiplicative ones bind their
/// operands tighter than the additive ones.
#[derive(Debug, Clone, Copy, PartialEq, Eq, Structural)]
pub enum Tier {
    Multiplicative,
    Additive,
}

/// The operator of `tier` that `c` writes.
pub open spec fn operator_of(tier: Tier, c: char) -> Option<Operator> {
    match tier {
        Tier::Multiplicative => if c == '*' {
            Some(Operator::Mul)
        } else if c == '/' {
            Some(Operator::Div)
        } else {
            None
        },
        Tier::Additive => if c == '+' {
            Some(Operator::Add)
        } else if c == '-' {
            Some(Operator::Sub)
        } else {
            None
        },
    }
}

/// The constness that the character behind the optional type decides.
pub open spec fn constness_of(c: char) -> Option<Constness> {
    if c == ':' {
        Some(Constness::Const)
    } else if c == '=' {
        Some(Constness::Mut)
    } else {
        None
    }
}

/// The place of a rule in the order in which the expression rules call each
/// other on one and the same text.
pub open spec fn tier_rank(tier: Tier) -> nat {
    match tier {
        Tier::Multiplicative => 0,
        Tier::Additive => 1,
    }
}

/// A type: a function type, or else a name.
pub open spec fn type_expr(s: Seq<char>) -> Outcome<Tree>
    decreases s.len(), 2nat,
{
    match fn_ty(s) {
        Ok((rest, decl)) => Ok((rest, Tree::Type(TypeTree::Fn(Box::new(decl))))),
        Err(_) => match ident_raw(s) {
            Ok((rest, name)) => Ok((rest, Tree::Type(type_named(name)))),
            Err(e) => Err(e),
        },
    }
}

/// A parameter of a function type: a name, a colon, a type.
pub open spec fn param(s: Seq<char>) -> Outcome<Tree>
    decreases s.len(), 0nat,
{
    match ident(s) {
        Ok((after_name, name)) => match expect_tag(spaces(after_name), ":"@) {
            Ok((after_colon, _)) => {
                proof {
                    lemma_ident(s);
                    lemma_run_len(after_name, CharClass::Space);
                    lemma_run_len(after_colon, CharClass::Space);
                }
                match type_expr(spaces(after_colon)) {
                    Ok((rest, ty)) => Ok(
                        (rest, Tree::FnParam { name: Box::new(name), ty: Box::new(ty) }),
                    ),
                    Err(e) => Err(e),
                }
            },
            Err(e) => Err(e),
        },
        Err(e) => Err(e),
    }
}

/// The parameters that follow the ones in `found`, each behind a comma.
/// The list ends before a comma that no parameter follows.
pub open spec fn more_params(s: Seq<char>, found: Seq<Tree>) -> (Seq<char>, Seq<Tree>)
    decreases s.len(), 0nat,
{
    match expect_tag(spaces(s), ","@) {
        Ok((after_comma, _)) => {
            proof {
                reveal_strlit(",");
                lemma_run_len(s, CharClass::Space);
                lemma_run_len(after_comma, CharClass::Space);
            }
            match param(spaces(after_comma)) {
                Ok((rest, next)) => if rest.len() < s.len() {
                    more_params(rest, found.push(next))
                } else {
                    (s, found)
                },
                Err(_) => (s, found),
            }
        },
        Err(_) => (s, found),
    }
}

/// The parameters of a function type: none, or some with commas between.
pub open spec fn params(s: Seq<char>) -> (Seq<char>, Seq<Tree>)
    decreases s.len(), 1nat,
{
    match param(s) {
        Ok((rest, first)) => if rest.len() <= s.len() {
            more_params(rest, seq![first])
        } else {
            (s, Seq::empty())
        },
        Err(_) => (s, Seq::empty()),
    }
}

/// The return type of a function type, if one is written: an arrow and a
/// type. An arrow that no type follows is left where it stands.
pub open spec fn return_type(s: Seq<char>) -> Option<(Seq<char>, Tree)>
    decreases s.len(), 3nat,
{
    match expect_tag(spaces(s), "->"@) {
        Ok((after_arrow, _)) => {
            proof {
                lemma_run_len(s, CharClass::Space);
                lemma_run_len(after_arrow, CharClass::Space);
            }
            match type_expr(spaces(after_arrow)) {
                Ok(found) => Some(found),
                Err(_) => None,
            }
        },
        Err(_) => None,
    }
}

/// A function type: `fn`, the parameters in parentheses, and the return
/// type if one is written.
pub open spec fn fn_ty(s: Seq<char>) -> Outcome<Tree>
    decreases s.len(), 1nat,
{
    match expect_tag(s, "fn"@) {
        Ok((after_fn, _)) => match expect_char(spaces(after_fn), '(') {
            Ok((after_paren, _)) => {
                proof {
                    reveal_strlit("fn");
                    lemma_run_len(after_fn, CharClass::Space);
                    lemma_run_len(after_paren, CharClass::Space);
                }
                let (after_params, args) = params(spaces(after_paren));
                match expect_char(after_params, ')') {
                    Ok((after_close, _)) => {
                        let ret = if after_close.len() < s.len() {
                            return_type(after_close)
                        } else {
                            None
                        };
                        match ret {
                            Some((rest, ret)) => Ok(
                                (rest, Tree::FnDecl { args, ret: Some(Box::new(ret)) }),
                            ),
                            None => Ok((after_close, Tree::FnDecl { args, ret: None })),
                        }
                    },
                    Err(e) => Err(e),
                }
            },
            Err(e) => Err(e),
        },
        Err(e) => Err(e),
    }
}

/// A parameter consumes something.
pub proof fn lemma_param_advances(s: Seq<char>)
    ensures
        within(param(s), s),
    decreases s.len(), 0nat,
{
    reveal_strlit(":");
    lemma_ident(s);
    match ident(s) {
        Ok((after_name, _)) => {
            let colon_at = spaces(after_name);
            lemma_spaces(after_name);
            lemma_suffix_trans(colon_at, after_name, s);
            lemma_expect_tag(colon_at, ":"@);
            match expect_tag(colon_at, ":"@) {
                Ok((after_colon, _)) => {
                    let type_at = spaces(after_colon);
                    lemma_spaces(after_colon);
                    lemma_suffix_trans(after_colon, colon_at, s);
                    lemma_suffix_trans(type_at, after_colon, s);
                    lemma_type_expr_advances(type_at);
                    lemma_within_rest(type_expr(type_at), type_at, s);
                },
                Err(_) => {},
            }
        },
        Err(_) => {},
    }
}

/// The parameters behind a comma end within the text, and none is lost.
pub proof fn lemma_more_params_inside(s: Seq<char>, found: Seq<Tree>)
    ensures
        is_suffix_of(more_params(s, found).0, s),
        more_params(s, found).1.len() >= found.len(),
    decreases s.len(), 0nat,
{
    reveal_strlit(",");
    lemma_suffix_refl(s);
    lemma_spaces(s);
    lemma_expect_tag(spaces(s), ","@);
    match expect_tag(spaces(s), ","@) {
        Ok((after_comma, _)) => {
            let next_at = spaces(after_comma);
            lemma_spaces(after_comma);
            lemma_suffix_trans(after_comma, spaces(s), s);
            lemma_suffix_trans(next_at, after_comma, s);
            lemma_param_advances(next_at);
            match param(next_at) {
                Ok((rest, next)) => {
                    lemma_suffix_trans(rest, next_at, s);
                    lemma_more_params_inside(rest, found.push(next));
                    lemma_suffix_trans(more_params(rest, found.push(next)).0, rest, s);
                },
                Err(_) => {},
            }
        },
        Err(_) => {},
    }
}

/// A list of parameters ends within the text.
pub proof fn lemma_params_inside(s: Seq<char>)
    ensures
        is_suffix_of(params(s).0, s),
    decreases s.len(), 1nat,
{
    lemma_suffix_refl(s);
    lemma_param_advances(s);
    match param(s) {
        Ok((rest, first)) => {
            lemma_more_params_inside(rest, seq![first]);
            lemma_suffix_trans(more_params(rest, seq![first]).0, rest, s);
        },
        Err(_) => {},
    }
}

/// A return type consumes its arrow.
pub proof fn lemma_return_type_advances(s: Seq<char>)
    ensures
        return_type(s) matches Some((rest, _)) ==> is_suffix_of(rest, s) && rest.len() < s.len(),
    decreases s.len(), 3nat,
{
    reveal_strlit("->");
    lemma_spaces(s);
    lemma_expect_tag(spaces(s), "->"@);
    match expect_tag(spaces(s), "->"@) {
        Ok((after_arrow, _)) => {
            let type_at = spaces(after_arrow);
            lemma_spaces(after_arrow);
            lemma_suffix_trans(after_arrow, spaces(s), s);
            lemma_suffix_trans(type_at, after_arrow, s);
            lemma_type_expr_advances(type_at);
            lemma_within_rest(type_expr(type_at), type_at, s);
        },
        Err(_) => {},
    }
}

/// A function type consumes its keyword and its parentheses.
pub proof fn lemma_fn_ty_advances(s: Seq<char>)
    ensures
        within(fn_ty(s), s),
    decreases s.len(), 1nat,
{
    reveal_strlit("fn");
    lemma_expect_tag(s, "fn"@);
    match expect_tag(s, "fn"@) {
        Ok((after_fn, _)) => {
            let paren_at = spaces(after_fn);
            lemma_spaces(after_fn);
            lemma_suffix_trans(paren_at, after_fn, s);
            lemma_expect_char(paren_at, '(');
            match expect_char(paren_at, '(') {
                Ok((after_paren, _)) => {
                    let params_at = spaces(after_paren);
                    lemma_spaces(after_paren);
                    lemma_suffix_trans(after_paren, paren_at, s);
                    lemma_suffix_trans(params_at, after_paren, s);
                    lemma_params_inside(params_at);
                    let (after_params, _) = params(params_at);
                    lemma_suffix_trans(after_params, params_at, s);
                    lemma_expect_char(after_params, ')');
                    match expect_char(after_params, ')') {
                        Ok((after_close, _)) => {
                            lemma_suffix_trans(after_close, after_params, s);
                            lemma_return_type_advances(after_close);
                            match return_type(after_close) {
                                Some((rest, _)) => {
                                    lemma_suffix_trans(rest, after_close, s);
                                },
                                None => {},
                            }
                        },
                        Err(_) => {},
                    }
                },
                Err(_) => {},
            }
        },
        Err(_) => {},
    }
}

/// A type consumes something.
pub proof fn lemma_type_expr_advances(s: Seq<char>)
    ensures
        within(type_expr(s), s),
    decreases s.len(), 2nat,
{
    lemma_fn_ty_advances(s);
    lemma_ident(s);
}

/// Every rule of the types consumes something where it succeeds, and
/// neither leaves nor blames anything outside the text it was given.
pub proof fn lemma_type_rules_advance(s: Seq<char>)
    ensures
        within(type_expr(s), s),
        within(fn_ty(s), s),
        within(param(s), s),
        is_suffix_of(params(s).0, s),
        return_type(s) matches Some((rest, _)) ==> is_suffix_of(rest, s) && rest.len() < s.len(),
{
    lemma_type_expr_advances(s);
    lemma_fn_ty_advances(s);
    lemma_param_advances(s);
    lemma_params_inside(s);
    lemma_return_type_advances(s);
}

/// The type behind the first colon of a statement, if one is written, with
/// the whitespace around it. Where no type stands there, nothing is
/// consumed, not even whitespace.
pub open spec fn optional_type(s: Seq<char>) -> (Seq<char>, Option<Tree>) {
    match type_expr(spaces(s)) {
        Ok((rest, ty)) => (spaces(rest), Some(ty)),
        Err(_) => (s, None),
    }
}

/// What a statement declares, up to the expression: the name, a colon, the
/// type if one is written, and the one character that decides constness,
/// `:` for a constant and `=` for a variable.
pub open spec fn binding(s: Seq<char>) -> Outcome<(Tree, Option<Tree>, Constness)> {
    match ident(s) {
        Ok((after_name, name)) => match expect_tag(spaces(after_name), ":"@) {
            Ok((after_colon, _)) => {
                let (decider_at, ty) = optional_type(after_colon);
                if decider_at.len() == 0 {
                    fail(decider_at, ErrorKind::Eof)
                } else {
                    match constness_of(decider_at[0]) {
                        Some(constness) => Ok((spaces(decider_at.skip(1)), (name, ty, constness))),
                        None => fail(decider_at, ErrorKind::Constness),
                    }
                }
            },
            Err(e) => Err(e),
        },
        Err(e) => Err(e),
    }
}

/// A declaration consumes something where it succeeds, and neither leaves
/// nor blames anything outside the text it was given.
pub proof fn lemma_binding_advances(s: Seq<char>)
    ensures
        within(binding(s), s),
{
    reveal_strlit(":");
    lemma_suffix_refl(s);
    lemma_ident(s);
    match ident(s) {
        Ok((after_name, _)) => {
            let colon_at = spaces(after_name);
            lemma_spaces(after_name);
            lemma_suffix_trans(colon_at, after_name, s);
            lemma_expect_tag(colon_at, ":"@);
            match expect_tag(colon_at, ":"@) {
                Ok((after_colon, _)) => {
                    lemma_suffix_trans(after_colon, colon_at, s);
                    let type_at = spaces(after_colon);
                    lemma_spaces(after_colon);
                    lemma_type_rules_advance(type_at);
                    match type_expr(type_at) {
                        Ok((rest, _)) => {
                            lemma_spaces(rest);
                            lemma_suffix_trans(spaces(rest), rest, type_at);
                            lemma_suffix_trans(spaces(rest), type_at, after_colon);
                        },
                        Err(_) => {
                            lemma_suffix_refl(after_colon);
                        },
                    }
                    let (decider_at, _) = optional_type(after_colon);
                    lemma_suffix_trans(decider_at, after_colon, s);
                    if decider_at.len() > 0 {
                        lemma_suffix_skip(decider_at, s, 1);
                        lemma_spaces(decider_at.skip(1));
                        lemma_suffix_trans(spaces(decider_at.skip(1)), decider_at.skip(1), s);
                    }
                },
                Err(_) => {},
            }
        },
        Err(_) => {},
    }
}

/// An operand of `tier`, with the whitespace around it: a primary
/// expression for the multiplicative operators, a multiplicative expression
/// for the additive ones.
pub open spec fn operand(tier: Tier, s: Seq<char>) -> Outcome<Tree>
    decreases s.len(), 3 * tier_rank(tier) + 2,
{
    proof {
        lemma_run_len(s, CharClass::Space);
    }
    let inner = match tier {
        Tier::Multiplicative => primary(spaces(s)),
        Tier::Additive => binary(Tier::Multiplicative, spaces(s)),
    };
    match inner {
        Ok((rest, tree)) => Ok((spaces(rest), tree)),
        Err(e) => Err(e),
    }
}

/// What follows the left operand `lhs` of `tier`: as long as an operator of
/// the tier comes next, one more operand, which the operator joins to all
/// that stands to its left. Operators of one tier so group from the left.
pub open spec fn binary_tail(tier: Tier, s: Seq<char>, lhs: Tree) -> Outcome<Tree>
    decreases s.len(), 0nat,
{
    if s.len() > 0 && operator_of(tier, s[0]) is Some {
        match operand(tier, s.skip(1)) {
            Ok((rest, rhs)) => {
                let joined = Tree::BinExpr {
                    op: operator_of(tier, s[0])->0,
                    lhs: Box::new(lhs),
                    rhs: Box::new(rhs),
                };
                if rest.len() < s.len() {
                    binary_tail(tier, rest, joined)
                } else {
                    Ok((rest, joined))
                }
            },
            Err(e) => Err(e),
        }
    } else {
        Ok((s, lhs))
    }
}

/// An expression of the operators of `tier`: an operand, then operators
/// and operands in turn. An operator that no operand follows fails the
/// whole expression.
pub open spec fn binary(tier: Tier, s: Seq<char>) -> Outcome<Tree>
    decreases s.len(), 3 * tier_rank(tier) + 3,
{
    match operand(tier, s) {
        Ok((rest, lhs)) => if rest.len() <= s.len() {
            binary_tail(tier, rest, lhs)
        } else {
            Ok((rest, lhs))
        },
        Err(e) => Err(e),
    }
}

/// An expression in parentheses.
pub open spec fn paren_expr(s: Seq<char>) -> Outcome<Tree>
    decreases s.len(), 0nat,
{
    match expect_char(s, '(') {
        Ok((inside, _)) => match expr(inside) {
            Ok((rest, tree)) => match expect_char(rest, ')') {
                Ok((rest, _)) => Ok((rest, tree)),
                Err(e) => Err(e),
            },
            Err(e) => Err(e),
        },
        Err(e) => Err(e),
    }
}

/// A primary expression: an expression in parentheses, else an identifier,
/// else a literal.
pub open spec fn primary(s: Seq<char>) -> Outcome<Tree>
    decreases s.len(), 1nat,
{
    if paren_expr(s) is Ok {
        paren_expr(s)
    } else if ident(s) is Ok {
        ident(s)
    } else {
        lit(s)
    }
}

/// A statement: a declaration and the expression that it binds.
pub open spec fn stmt(s: Seq<char>) -> Outcome<Tree>
    decreases s.len(), 0nat,
{
    match binding(s) {
        Ok((expr_at, (name, ty, constness))) => {
            proof {
                lemma_binding_advances(s);
            }
            match expr(expr_at) {
                Ok((rest, tree)) => Ok(
                    (
                        rest,
                        Tree::StmtExpr {
                            constness,
                            name: Box::new(name),
                            ty: match ty {
                                Some(ty) => Some(Box::new(ty)),
                                None => None,
                            },
                            expr: Box::new(tree),
                        },
                    ),
                ),
                Err(e) => Err(e),
            }
        },
        Err(e) => Err(e),
    }
}

/// The statements that follow the ones in `found`, each with the
/// whitespace around it, for as long as there is one.
pub open spec fn statements(s: Seq<char>, found: Seq<Tree>) -> (Seq<char>, Seq<Tree>)
    decreases s.len(), 1nat,
{
    proof {
        lemma_run_len(s, CharClass::Space);
    }
    match stmt(spaces(s)) {
        Ok((rest, item)) => if rest.len() < s.len() {
            proof {
                lemma_run_len(rest, CharClass::Space);
            }
            statements(spaces(rest), found.push(item))
        } else {
            (s, found)
        },
        Err(_) => (s, found),
    }
}

/// A block: statements between braces. The whitespace in a block belongs
/// to its statements, so a block without statements is written `{}`.
pub open spec fn block(s: Seq<char>) -> Outcome<Tree>
    decreases s.len(), 0nat,
{
    match expect_char(s, '{') {
        Ok((inside, _)) => {
            let (close_at, items) = statements(inside, Seq::empty());
            match expect_char(close_at, '}') {
                Ok((rest, _)) => Ok((rest, Tree::BlockExpr(items))),
                Err(e) => Err(e),
            }
        },
        Err(e) => Err(e),
    }
}

/// An expression: an expression of the additive operators, or else a
/// block.
pub open spec fn expr(s: Seq<char>) -> Outcome<Tree>
    decreases s.len(), 7nat,
{
    if binary(Tier::Additive, s) is Ok {
        binary(Tier::Additive, s)
    } else {
        block(s)
    }
}

/// A statement at the top level of a module.
pub open spec fn toplevel(s: Seq<char>) -> Outcome<Tree> {
    stmt(s)
}

/// A module: one statement or more, each with the whitespace around it, up
/// to the end of the text. Text that is left behind the last statement
/// fails the module at the place where it starts.
pub open spec fn module(s: Seq<char>) -> Outcome<Tree> {
    match toplevel(spaces(s)) {
        Ok((rest, first)) => {
            let (end, items) = statements(spaces(rest), seq![first]);
            if end.len() == 0 {
                Ok((end, Tree::Module(items)))
            } else {
                fail(end, ErrorKind::Eof)
            }
        },
        Err(e) => Err(e),
    }
}

/// What holds of the outcome of a rule that may succeed without consuming
/// anything: what it leaves, or the place of its failure, is a rest of the
/// text.
pub open spec fn inside<T>(o: Outcome<T>, s: Seq<char>) -> bool {
    match o {
        Ok((rest, _)) => is_suffix_of(rest, s),
        Err(e) => is_suffix_of(e.rest, s),
    }
}

/// An operand consumes something.
pub proof fn lemma_operand_advances(tier: Tier, s: Seq<char>)
    ensures
        within(operand(tier, s), s),
    decreases s.len(), 3 * tier_rank(tier) + 2,
{
    let start = spaces(s);
    lemma_spaces(s);
    let inner = match tier {
        Tier::Multiplicative => primary(start),
        Tier::Additive => binary(Tier::Multiplicative, start),
    };
    match tier {
        Tier::Multiplicative => lemma_primary_advances(start),
        Tier::Additive => lemma_binary_advances(Tier::Multiplicative, start),
    }
    lemma_within_rest(inner, start, s);
    match inner {
        Ok((rest, _)) => {
            lemma_spaces(rest);
            lemma_suffix_trans(spaces(rest), rest, s);
        },
        Err(_) => {},
    }
}

/// Operators and operands behind a left operand end within the text.
pub proof fn lemma_binary_tail_inside(tier: Tier, s: Seq<char>, lhs: Tree)
    ensures
        inside(binary_tail(tier, s, lhs), s),
    decreases s.len(), 0nat,
{
    lemma_suffix_refl(s);
    if s.len() > 0 && operator_of(tier, s[0]) is Some {
        lemma_suffix_skip(s, s, 1);
        lemma_operand_advances(tier, s.skip(1));
        lemma_within_rest(operand(tier, s.skip(1)), s.skip(1), s);
        match operand(tier, s.skip(1)) {
            Ok((rest, rhs)) => {
                let joined = Tree::BinExpr {
                    op: operator_of(tier, s[0])->0,
                    lhs: Box::new(lhs),
                    rhs: Box::new(rhs),
                };
                lemma_binary_tail_inside(tier, rest, joined);
                match binary_tail(tier, rest, joined) {
                    Ok((left, _)) => lemma_suffix_trans(left, rest, s),
                    Err(e) => lemma_suffix_trans(e.rest, rest, s),
                }
            },
            Err(_) => {},
        }
    }
}

/// An expression of a tier consumes something.
pub proof fn lemma_binary_advances(tier: Tier, s: Seq<char>)
    ensures
        within(binary(tier, s), s),
    decreases s.len(), 3 * tier_rank(tier) + 3,
{
    lemma_operand_advances(tier, s);
    match operand(tier, s) {
        Ok((rest, lhs)) => {
            lemma_binary_tail_inside(tier, rest, lhs);
            match binary_tail(tier, rest, lhs) {
                Ok((left, _)) => lemma_suffix_trans(left, rest, s),
                Err(e) => lemma_suffix_trans(e.rest, rest, s),
            }
        },
        Err(_) => {},
    }
}

/// An expression in parentheses consumes its parentheses.
pub proof fn lemma_paren_expr_advances(s: Seq<char>)
    ensures
        within(paren_expr(s), s),
    decreases s.len(), 0nat,
{
    lemma_expect_char(s, '(');
    match expect_char(s, '(') {
        Ok((inner, _)) => {
            lemma_expr_advances(inner);
            lemma_within_rest(expr(inner), inner, s);
            match expr(inner) {
                Ok((rest, _)) => {
                    lemma_expect_char(rest, ')');
                    lemma_within_rest(expect_char(rest, ')'), rest, s);
                },
                Err(_) => {},
            }
        },
        Err(_) => {},
    }
}

/// A primary expression consumes something.
pub proof fn lemma_primary_advances(s: Seq<char>)
    ensures
        within(primary(s), s),
    decreases s.len(), 1nat,
{
    lemma_paren_expr_advances(s);
    lemma_ident(s);
    lemma_lit(s);
}

/// A statement consumes something, and gives a statement node.
pub proof fn lemma_stmt_advances(s: Seq<char>)
    ensures
        within(stmt(s), s),
        stmt(s) matches Ok((_, tree)) ==> tree is StmtExpr,
    decreases s.len(), 0nat,
{
    lemma_binding_advances(s);
    match binding(s) {
        Ok((expr_at, _)) => {
            lemma_expr_advances(expr_at);
            lemma_within_rest(expr(expr_at), expr_at, s);
        },
        Err(_) => {},
    }
}

/// Statements in a row end within the text, and none is lost.
pub proof fn lemma_statements_inside(s: Seq<char>, found: Seq<Tree>)
    ensures
        is_suffix_of(statements(s, found).0, s),
        statements(s, found).1.len() >= found.len(),
    decreases s.len(), 1nat,
{
    lemma_suffix_refl(s);
    lemma_spaces(s);
    lemma_stmt_advances(spaces(s));
    match stmt(spaces(s)) {
        Ok((rest, item)) => {
            lemma_suffix_trans(rest, spaces(s), s);
            lemma_spaces(rest);
            lemma_suffix_trans(spaces(rest), rest, s);
            lemma_statements_inside(spaces(rest), found.push(item));
            lemma_suffix_trans(statements(spaces(rest), found.push(item)).0, spaces(rest), s);
        },
        Err(_) => {},
    }
}

/// A block consumes its braces.
pub proof fn lemma_block_advances(s: Seq<char>)
    ensures
        within(block(s), s),
    decreases s.len(), 0nat,
{
    lemma_expect_char(s, '{');
    match expect_char(s, '{') {
        Ok((inner, _)) => {
            lemma_statements_inside(inner, Seq::empty());
            let (close_at, _) = statements(inner, Seq::empty());
            lemma_suffix_trans(close_at, inner, s);
            lemma_expect_char(close_at, '}');
            lemma_within_rest(expect_char(close_at, '}'), close_at, s);
        },
        Err(_) => {},
    }
}

/// Every rule of the expressions and statements consumes something where
/// it succeeds, and neither leaves nor blames anything outside the text it
/// was given.
pub proof fn lemma_expr_advances(s: Seq<char>)
    ensures
        within(expr(s), s),
    decreases s.len(), 7nat,
{
    lemma_binary_advances(Tier::Additive, s);
    lemma_block_advances(s);
}

/// The rules of the types that repeat or continue behind another rule,
/// without the question whether that rule has moved on.
pub proof fn lemma_type_rules_unfold(s: Seq<char>, found: Seq<Tree>)
    ensures
        params(s) == match param(s) {
            Ok((rest, first)) => more_params(rest, seq![first]),
            Err(_) => (s, Seq::empty()),
        },
        more_params(s, found) == match expect_tag(spaces(s), ","@) {
            Ok((after_comma, _)) => match param(spaces(after_comma)) {
                Ok((rest, next)) => more_params(rest, found.push(next)),
                Err(_) => (s, found),
            },
            Err(_) => (s, found),
        },
        fn_ty(s) == match expect_tag(s, "fn"@) {
            Ok((after_fn, _)) => match expect_char(spaces(after_fn), '(') {
                Ok((after_paren, _)) => {
                    let (after_params, args) = params(spaces(after_paren));
                    match expect_char(after_params, ')') {
                        Ok((after_close, _)) => match return_type(after_close) {
                            Some((rest, ret)) => Ok(
                                (rest, Tree::FnDecl { args, ret: Some(Box::new(ret)) }),
                            ),
                            None => Ok((after_close, Tree::FnDecl { args, ret: None })),
                        },
                        Err(e) => Err(e),
                    }
                },
                Err(e) => Err(e),
            },
            Err(e) => Err(e),
        },
{
    reveal_strlit(",");
    reveal_strlit("fn");
    lemma_param_advances(s);
    lemma_spaces(s);
    lemma_expect_tag(spaces(s), ","@);
    match expect_tag(spaces(s), ","@) {
        Ok((after_comma, _)) => {
            lemma_spaces(after_comma);
            lemma_param_advances(spaces(after_comma));
        },
        Err(_) => {},
    }
    lemma_expect_tag(s, "fn"@);
    match expect_tag(s, "fn"@) {
        Ok((after_fn, _)) => {
            lemma_spaces(after_fn);
            lemma_expect_char(spaces(after_fn), '(');
            match expect_char(spaces(after_fn), '(') {
                Ok((after_paren, _)) => {
                    lemma_spaces(after_paren);
                    lemma_params_inside(spaces(after_paren));
                    lemma_expect_char(params(spaces(after_paren)).0, ')');
                },
                Err(_) => {},
            }
        },
        Err(_) => {},
    }
}

/// The rules of the expressions and statements that repeat or continue
/// behind another rule, without the question whether that rule has moved
/// on.
pub proof fn lemma_expression_rules_unfold(tier: Tier, s: Seq<char>, lhs: Tree, found: Seq<Tree>)
    ensures
        binary(tier, s) == match operand(tier, s) {
            Ok((rest, first)) => binary_tail(tier, rest, first),
            Err(e) => Err(e),
        },
        binary_tail(tier, s, lhs) == if s.len() > 0 && operator_of(tier, s[0]) is Some {
            match operand(tier, s.skip(1)) {
                Ok((rest, rhs)) => binary_tail(
                    tier,
                    rest,
                    Tree::BinExpr {
                        op: operator_of(tier, s[0])->0,
                        lhs: Box::new(lhs),
                        rhs: Box::new(rhs),
                    },
                ),
                Err(e) => Err(e),
            }
        } else {
            Ok((s, lhs))
        },
        statements(s, found) == match stmt(spaces(s)) {
            Ok((rest, item)) => statements(spaces(rest), found.push(item)),
            Err(_) => (s, found),
        },
{
    lemma_operand_advances(tier, s);
    if s.len() > 0 {
        lemma_operand_advances(tier, s.skip(1));
    }
    lemma_spaces(s);
    lemma_stmt_advances(spaces(s));
}

} // verus!

//! What holds of every parse, proved from the rules in [`crate::lexical`]
//! and [`crate::grammar`].
//!
//! That a rule consumes something where it succeeds, and that a failure
//! never lies outside the text that the rule was given, is proved beside the
//! rules: see [`within`] and the lemmas that end in `_advances`.

use vstd::prelude::*;
use crate::ast::{type_named, Constness, Tree};
use crate::chars::{alphabetic, is_alphanumeric, is_digit, is_plain, is_space, CharClass};
use crate::error::{ErrorKind, Failure};
use crate::grammar::{
    binary_tail, binding, constness_of, expr, fn_ty, lemma_operand_advances, lemma_statements_inside,
    lemma_stmt_advances, module, operand, operator_of, statements, stmt, toplevel,
    type_expr, Tier,
};
use crate::lexical::{
    decimal_number, exponent_mark_len, expect_tag, fits_i64, fraction_len, ident, ident_raw,
    ident_tail_len, lemma_ident_tail_len, lemma_run_len,
    lemma_spaces, lemma_str_body, lemma_str_fragment, lit, lit_chr, lit_dec, lit_str, run_len,
    sign_len,
    spaces, str_body, str_fragment, within, FragmentTree,
};
use crate::text::{is_suffix_of, lemma_suffix_trans};

verus! {

/// A statement with a type has the shape that its parts give it: where a
/// name, a colon, a type, a character that decides constness and an
/// expression stand one behind the other, with any whitespace between them,
/// the statement binds that name with that type and that constness to that
/// expression.
pub proof fn lemma_statement_with_type(
    s: Seq<char>,
    after_name: Seq<char>,
    name: Tree,
    after_colon: Seq<char>,
    after_type: Seq<char>,
    ty: Tree,
    constness: Constness,
    rest: Seq<char>,
    value: Tree,
)
    requires
        ident(s) == Ok::<_, Failure>((after_name, name)),
        expect_tag(spaces(after_name), ":"@) matches Ok((left, _)) && left == after_colon,
        type_expr(spaces(after_colon)) == Ok::<_, Failure>((after_type, ty)),
        spaces(after_type).len() > 0,
        constness_of(spaces(after_type)[0]) == Some(constness),
        expr(spaces(spaces(after_type).skip(1))) == Ok::<_, Failure>((rest, value)),
    ensures
        stmt(s) == Ok::<_, Failure>(
            (
                rest,
                Tree::StmtExpr {
                    constness,
                    name: Box::new(name),
                    ty: Some(Box::new(ty)),
                    expr: Box::new(value),
                },
            ),
        ),
{
}

/// A statement without a type has no type: where no type can be read
/// behind the colon, the very next character decides constness, and the
/// statement binds the name to the expression behind it.
pub proof fn lemma_statement_without_type(
    s: Seq<char>,
    after_name: Seq<char>,
    name: Tree,
    after_colon: Seq<char>,
    constness: Constness,
    rest: Seq<char>,
    value: Tree,
)
    requires
        ident(s) == Ok::<_, Failure>((after_name, name)),
        expect_tag(spaces(after_name), ":"@) matches Ok((left, _)) && left == after_colon,
        type_expr(spaces(after_colon)) is Err,
        after_colon.len() > 0,
        constness_of(after_colon[0]) == Some(constness),
        expr(spaces(after_colon.skip(1))) == Ok::<_, Failure>((rest, value)),
    ensures
        stmt(s) == Ok::<_, Failure>(
            (
                rest,
                Tree::StmtExpr { constness, name: Box::new(name), ty: None, expr: Box::new(value) },
            ),
        ),
{
}

/// A run ends where the text ends, or where a character follows that is
/// not of its class: what comes behind that does not change it.
proof fn lemma_run_stops(run: Seq<char>, behind: Seq<char>, class: CharClass)
    requires
        behind.len() == 0 || !class.has(behind[0]),
    ensures
        run_len(run + behind, class) == run_len(run, class),
    decreases run.len(),
{
    if run.len() == 0 {
        assert(run + behind =~= behind);
    } else {
        assert((run + behind)[0] == run[0]);
        if class.has(run[0]) {
            assert((run + behind).skip(1) =~= run.skip(1) + behind);
            lemma_run_stops(run.skip(1), behind, class);
        }
    }
}

/// What may follow the first character of an identifier is made of letters,
/// digits and underscores, and it ends before a character that is none of
/// these.
proof fn lemma_ident_tail_stops(tail: Seq<char>, behind: Seq<char>)
    requires
        ident_tail_len(tail) == tail.len(),
        behind.len() > 0,
        !is_alphanumeric(behind[0]),
        behind[0] != '_',
    ensures
        ident_tail_len(tail + behind) == tail.len(),
        forall|i: int| 0 <= i < tail.len() ==> is_alphanumeric(#[trigger] tail[i]) || tail[i] == '_',
    decreases tail.len(),
{
    if tail.len() == 0 {
        assert(tail + behind =~= behind);
        assert(behind.skip(0) =~= behind);
    } else {
        let lead: int = if tail[0] == '_' {
            1
        } else {
            0
        };
        let body = tail.skip(lead);
        let run = run_len(body, CharClass::AlphaNumeric) as int;
        lemma_run_len(body, CharClass::AlphaNumeric);
        let next = tail.skip(lead + run);
        lemma_ident_tail_len(next);
        assert((tail + behind)[0] == tail[0]);
        assert((tail + behind).skip(lead) =~= body + behind);
        lemma_run_stops(body, behind, CharClass::AlphaNumeric);
        assert((tail + behind).skip(lead + run) =~= next + behind);
        lemma_ident_tail_stops(next, behind);
        assert forall|i: int| 0 <= i < tail.len() implies is_alphanumeric(#[trigger] tail[i])
            || tail[i] == '_' by {
            if lead <= i < lead + run {
                assert(tail[i] == body[i - lead]);
            } else if i >= lead + run {
                assert(tail[i] == next[i - lead - run]);
            }
        }
    }
}

/// An identifier ends before a character that is neither a letter, a digit
/// nor an underscore: a text that is an identifier as a whole is read as
/// that identifier when such a character follows it.
pub proof fn lemma_ident_stops(name: Seq<char>, behind: Seq<char>)
    requires
        ident_raw(name) matches Ok((rest, _)) && rest.len() == 0,
        behind.len() > 0,
        !is_alphanumeric(behind[0]),
        behind[0] != '_',
    ensures
        ident_raw(name + behind) == Ok::<_, Failure>((behind, name)),
        forall|i: int| 1 <= i < name.len() ==> is_alphanumeric(#[trigger] name[i]) || name[i] == '_',
{
    let tail = name.skip(1);
    lemma_ident_tail_len(tail);
    assert((name + behind)[0] == name[0]);
    assert((name + behind).skip(1) =~= tail + behind);
    lemma_ident_tail_stops(tail, behind);
    assert((name + behind).skip(name.len() as int) =~= behind);
    assert((name + behind).take(name.len() as int) =~= name);
    assert forall|i: int| 1 <= i < name.len() implies is_alphanumeric(#[trigger] name[i])
        || name[i] == '_' by {
        assert(name[i] == tail[i - 1]);
    }
}

/// A name that something other than a parenthesis follows is no function
/// type, even where the name starts with `fn`.
proof fn lemma_name_is_no_function_type(name: Seq<char>, decider: char, behind: Seq<char>)
    requires
        ident_raw(name) matches Ok((rest, _)) && rest.len() == 0,
        constness_of(decider) is Some,
    ensures
        fn_ty(name + (seq![' ', decider] + behind)) is Err,
{
    reveal_strlit("fn");
    let tail = seq![' ', decider] + behind;
    let s = name + tail;
    lemma_ident_stops(name, tail);
    match expect_tag(s, "fn"@) {
        Ok((after_fn, _)) => {
            assert(s.subrange(0, 2)[1] == 'n');
            assert(name.len() >= 2);
            if name.len() == 2 {
                assert(after_fn =~= tail);
                assert(tail.skip(1).len() > 0 && !is_space(tail.skip(1)[0]));
                assert(run_len(tail.skip(1), CharClass::Space) == 0);
                assert(run_len(tail, CharClass::Space) == 1);
                assert(spaces(after_fn)[0] == decider);
            } else {
                assert(after_fn[0] == name[2]);
                assert(run_len(after_fn, CharClass::Space) == 0);
                assert(after_fn.skip(0) =~= after_fn);
            }
        },
        Err(_) => {},
    }
}

/// A constant or variable with a named type reads as it is written: the
/// text `name : type : value`, or the same with `=` in the place of the
/// second colon, is the statement that binds `name`, with the type of that
/// name and the constness that the character decides, to what `value` reads
/// as. The parts are an identifier, the name of a type, and a text that
/// starts with an expression and not with whitespace. (That the name of the
/// type starts with no whitespace holds of every identifier; it is asked
/// for because nothing is known here of which characters are alphabetic.)
pub proof fn lemma_statement_reads_as_written(
    name: Seq<char>,
    ty: Seq<char>,
    decider: char,
    value: Seq<char>,
)
    requires
        ident_raw(name) matches Ok((rest, _)) && rest.len() == 0,
        ident_raw(ty) matches Ok((rest, _)) && rest.len() == 0,
        !is_space(ty[0]),
        constness_of(decider) is Some,
        expr(value) is Ok,
        value.len() > 0 && !is_space(value[0]),
    ensures
        stmt(name + (seq![' ', ':', ' '] + (ty + (seq![' ', decider, ' '] + value))))
            == Ok::<_, Failure>(
            (
                expr(value)->Ok_0.0,
                Tree::StmtExpr {
                    constness: constness_of(decider)->0,
                    name: Box::new(Tree::Ident(name)),
                    ty: Some(Box::new(Tree::Type(type_named(ty)))),
                    expr: Box::new(expr(value)->Ok_0.1),
                },
            ),
        ),
{
    reveal_strlit(":");
    let after_type = seq![' ', decider, ' '] + value;
    let type_at = ty + after_type;
    let after_name = seq![' ', ':', ' '] + type_at;
    let s = name + after_name;
    // the name
    lemma_ident_stops(name, after_name);
    // the colon
    let colon_at = after_name.skip(1);
    assert(run_len(colon_at, CharClass::Space) == 0);
    assert(run_len(after_name, CharClass::Space) == 1);
    assert(spaces(after_name) == colon_at);
    assert(":"@ =~= colon_at.subrange(0, 1));
    let after_colon = colon_at.skip(1);
    // the type
    assert(after_colon.skip(1) =~= type_at);
    assert(run_len(type_at, CharClass::Space) == 0) by {
        assert(type_at[0] == ty[0]);
    }
    assert(run_len(after_colon, CharClass::Space) == 1);
    assert(spaces(after_colon) == type_at);
    assert(after_type =~= seq![' ', decider] + (seq![' '] + value));
    lemma_name_is_no_function_type(ty, decider, seq![' '] + value);
    lemma_ident_stops(ty, after_type);
    assert(type_expr(type_at) == Ok::<_, Failure>((after_type, Tree::Type(type_named(ty)))));
    // the character that decides
    let decider_at = after_type.skip(1);
    assert(run_len(decider_at, CharClass::Space) == 0) by {
        assert(decider_at[0] == decider);
    }
    assert(run_len(after_type, CharClass::Space) == 1);
    assert(spaces(after_type) == decider_at);
    // the expression
    let value_at = decider_at.skip(1);
    assert(value_at.skip(1) =~= value);
    assert(run_len(value, CharClass::Space) == 0);
    assert(run_len(value_at, CharClass::Space) == 1);
    assert(spaces(value_at) == value);
    assert(binding(s) == Ok::<_, Failure>(
        (value, (Tree::Ident(name), Some(Tree::Type(type_named(ty))), constness_of(decider)->0)),
    ));
}

/// A constant or variable without a type reads as it is written: the text
/// `name :: value`, or `name := value`, is the statement that binds `name`,
/// with no type and the constness that the second character decides, to
/// what `value` reads as. (That the deciding character is not alphabetic
/// holds of both; it is asked for because nothing is known here of which
/// characters are alphabetic.)
pub proof fn lemma_untyped_statement_reads_as_written(
    name: Seq<char>,
    decider: char,
    value: Seq<char>,
)
    requires
        ident_raw(name) matches Ok((rest, _)) && rest.len() == 0,
        constness_of(decider) is Some,
        !alphabetic(decider),
        expr(value) is Ok,
        value.len() > 0 && !is_space(value[0]),
    ensures
        stmt(name + (seq![' ', ':', decider, ' '] + value)) == Ok::<_, Failure>(
            (
                expr(value)->Ok_0.0,
                Tree::StmtExpr {
                    constness: constness_of(decider)->0,
                    name: Box::new(Tree::Ident(name)),
                    ty: None,
                    expr: Box::new(expr(value)->Ok_0.1),
                },
            ),
        ),
{
    reveal_strlit(":");
    reveal_strlit("fn");
    let after_name = seq![' ', ':', decider, ' '] + value;
    let s = name + after_name;
    lemma_ident_stops(name, after_name);
    let colon_at = after_name.skip(1);
    assert(run_len(colon_at, CharClass::Space) == 0);
    assert(run_len(after_name, CharClass::Space) == 1);
    assert(spaces(after_name) == colon_at);
    assert(":"@ =~= colon_at.subrange(0, 1));
    let after_colon = colon_at.skip(1);
    assert(after_colon[0] == decider);
    assert(run_len(after_colon, CharClass::Space) == 0);
    assert(after_colon.skip(0) =~= after_colon);
    assert(spaces(after_colon) == after_colon);
    assert(expect_tag(after_colon, "fn"@) is Err) by {
        if "fn"@.is_prefix_of(after_colon) {
            assert(after_colon.subrange(0, 2)[0] == 'f');
        }
    }
    assert(type_expr(after_colon) is Err);
    let value_at = after_colon.skip(1);
    assert(value_at.skip(1) =~= value);
    assert(run_len(value, CharClass::Space) == 0);
    assert(run_len(value_at, CharClass::Space) == 1);
    assert(spaces(value_at) == value);
    assert(binding(s) == Ok::<_, Failure>(
        (value, (Tree::Ident(name), None::<Tree>, constness_of(decider)->0)),
    ));
}

/// Whatever a statement is made of, its tree is a statement node that binds
/// an identifier, and its type, where it has one, is a type node.
pub proof fn lemma_statement_tree(s: Seq<char>)
    ensures
        stmt(s) matches Ok((_, tree)) ==> {
            &&& tree matches Tree::StmtExpr { name, ty, .. }
            &&& *name is Ident
            &&& ty matches Some(ty) ==> *ty is Type
        },
{
}

/// Operators of one tier group from the left: of two operators in a row,
/// the first joins its operands before the second joins the result to its
/// own right operand.
pub proof fn lemma_operators_group_left(
    tier: Tier,
    s: Seq<char>,
    lhs: Tree,
    after_first: Seq<char>,
    middle: Tree,
    after_second: Seq<char>,
    rhs: Tree,
)
    requires
        s.len() > 0,
        operator_of(tier, s[0]) is Some,
        operand(tier, s.skip(1)) == Ok::<_, Failure>((after_first, middle)),
        after_first.len() > 0,
        operator_of(tier, after_first[0]) is Some,
        operand(tier, after_first.skip(1)) == Ok::<_, Failure>((after_second, rhs)),
    ensures
        binary_tail(tier, s, lhs) == binary_tail(
            tier,
            after_second,
            Tree::BinExpr {
                op: operator_of(tier, after_first[0])->0,
                lhs: Box::new(
                    Tree::BinExpr {
                        op: operator_of(tier, s[0])->0,
                        lhs: Box::new(lhs),
                        rhs: Box::new(middle),
                    },
                ),
                rhs: Box::new(rhs),
            },
        ),
{
    lemma_operand_advances(tier, s.skip(1));
    lemma_operand_advances(tier, after_first.skip(1));
    let first = Tree::BinExpr {
        op: operator_of(tier, s[0])->0,
        lhs: Box::new(lhs),
        rhs: Box::new(middle),
    };
    assert(binary_tail(tier, s, lhs) == binary_tail(tier, after_first, first));
}

/// A text that is not empty becomes a copy with the next fragment, and
/// stays one.
proof fn lemma_str_body_stays_owned(s: Seq<char>, text: Seq<char>, owned: bool)
    requires
        text.len() > 0,
    ensures
        str_body(s, text, owned) matches Ok((_, Tree::LitStr { owned: copied, .. })) ==> copied
            || (!owned && s.len() > 0 && s[0] == '"'),
    decreases s.len(),
{
    if !(s.len() > 0 && s[0] == '"') {
        lemma_str_fragment(s);
        match str_fragment(s) {
            Ok((rest, fragment)) => match fragment {
                FragmentTree::Escaped(c) => lemma_str_body_stays_owned(rest, text.push(c), true),
                FragmentTree::Unescaped(run) => lemma_str_body_stays_owned(rest, text + run, true),
            },
            Err(_) => {},
        }
    }
}

/// A string literal is a slice of the source exactly when no escape stands
/// between its quotes, and then it is the very text between them. With an
/// escape it is a copy.
pub proof fn lemma_string_borrowed_iff_plain(s: Seq<char>)
    requires
        s.len() > 0,
        s[0] == '"',
    ensures
        ({
            let body = s.skip(1);
            let plain = run_len(body, CharClass::Plain) as int;
            let closed = plain < body.len() && body[plain] == '"';
            &&& closed ==> lit_str(s) == Ok::<_, Failure>(
                (body.skip(plain + 1), Tree::LitStr { text: body.take(plain), owned: false }),
            )
            &&& lit_str(s) matches Ok((_, Tree::LitStr { owned, .. })) ==> (owned <==> !closed)
        }),
{
    let body = s.skip(1);
    let plain = run_len(body, CharClass::Plain) as int;
    lemma_run_len(body, CharClass::Plain);
    lemma_str_body(body, Seq::empty(), false);
    if plain < body.len() && body[plain] == '"' {
        if plain == 0 {
            assert(body.take(0) =~= Seq::<char>::empty());
        } else {
            assert(is_plain(body[0]));
            assert(str_fragment(body) == Ok::<_, Failure>(
                (body.skip(plain), FragmentTree::Unescaped(body.take(plain))),
            ));
            assert(body.skip(plain).skip(1) =~= body.skip(plain + 1));
        }
    } else {
        assert(!(body.len() > 0 && body[0] == '"'));
        lemma_str_fragment(body);
        match str_fragment(body) {
            Ok((rest, fragment)) => match fragment {
                FragmentTree::Escaped(c) => {
                    lemma_str_body_stays_owned(rest, Seq::<char>::empty().push(c), true);
                },
                FragmentTree::Unescaped(run) => {
                    assert(rest == body.skip(plain));
                    lemma_str_body_stays_owned(rest, run, false);
                },
            },
            Err(_) => {},
        }
    }
}

/// A run of a class that covers the whole text is as long as the text.
proof fn lemma_run_of_whole(s: Seq<char>, class: CharClass)
    requires
        forall|i: int| 0 <= i < s.len() ==> class.has(#[trigger] s[i]),
    ensures
        run_len(s, class) == s.len(),
    decreases s.len(),
{
    if s.len() > 0 {
        assert forall|i: int| 0 <= i < s.skip(1).len() implies class.has(
            #[trigger] s.skip(1)[i],
        ) by {
            assert(s.skip(1)[i] == s[i + 1]);
        }
        lemma_run_of_whole(s.skip(1), class);
    }
}

/// A decimal literal always holds an exponent marker: every run of digits
/// is as long as it can be, so only behind the marker are digits left for
/// the closing run.
pub proof fn lemma_decimal_has_exponent_mark(s: Seq<char>)
    ensures
        lit_dec(s) is Ok ==> ({
            let whole = s.skip(sign_len(s) as int);
            let fraction = whole.skip(run_len(whole, CharClass::Digit) as int);
            let mark = fraction.skip(fraction_len(fraction) as int);
            exponent_mark_len(mark) > 0
        }),
{
    let whole = s.skip(sign_len(s) as int);
    let digits = run_len(whole, CharClass::Digit);
    lemma_run_len(whole, CharClass::Digit);
    let fraction = whole.skip(digits as int);
    if fraction.len() > 0 {
        lemma_run_len(fraction.skip(1), CharClass::Digit);
    }
    let mark = fraction.skip(fraction_len(fraction) as int);
    if fraction_len(fraction) > 0 {
        let behind = run_len(fraction.skip(1), CharClass::Digit) as int;
        if behind < fraction.skip(1).len() {
            assert(mark[0] == fraction.skip(1)[behind]);
        }
    } else if digits < whole.len() {
        assert(mark =~= fraction);
        assert(mark[0] == whole[digits as int]);
    }
}

/// Digits alone are an integer literal, never a decimal one: a text that
/// is made of digits, and whose number fits in 64 bits, is the integer
/// literal of that number.
pub proof fn lemma_digits_are_an_integer(s: Seq<char>)
    requires
        s.len() > 0,
        forall|i: int| 0 <= i < s.len() ==> is_digit(#[trigger] s[i]),
        fits_i64(decimal_number(s) as int),
    ensures
        lit_dec(s) is Err,
        lit(s) == Ok::<_, Failure>(
            (Seq::<char>::empty(), Tree::LitInt(decimal_number(s) as int)),
        ),
{
    lemma_run_of_whole(s, CharClass::Digit);
    assert(is_digit(s[0]));
    assert(s.skip(0) =~= s);
    let fraction = s.skip(s.len() as int);
    assert(fraction.len() == 0);
    assert(fraction.skip(0) =~= fraction);
    assert(s.take(s.len() as int) =~= s);
    assert(s.skip(s.len() as int) =~= Seq::<char>::empty());
    assert(lit_str(s) is Err);
    assert(lit_chr(s) is Err);
    assert(lit_dec(s) is Err);
}

/// A module that parses has been consumed to its end: text that is left
/// behind the last statement makes the parse fail. Its tree is a module
/// node with at least one statement. A failure lies within the text.
pub proof fn lemma_module_consumes_all(s: Seq<char>)
    ensures
        match module(s) {
            Ok((rest, tree)) => {
                &&& rest.len() == 0
                &&& tree matches Tree::Module(items)
                &&& items.len() >= 1
            },
            Err(e) => is_suffix_of(e.rest, s),
        },
{
    lemma_spaces(s);
    lemma_stmt_advances(spaces(s));
    match toplevel(spaces(s)) {
        Ok((rest, first)) => {
            lemma_suffix_trans(rest, spaces(s), s);
            lemma_spaces(rest);
            lemma_suffix_trans(spaces(rest), rest, s);
            lemma_statements_inside(spaces(rest), seq![first]);
            lemma_suffix_trans(statements(spaces(rest), seq![first]).0, spaces(rest), s);
        },
        Err(e) => {
            lemma_suffix_trans(e.rest, spaces(s), s);
        },
    }
}

/// Text behind the statements of a module fails it, at the place where
/// that text starts: where the statements end before the end of the text,
/// the module is no module.
pub proof fn lemma_trailing_text_fails_module(s: Seq<char>)
    ensures
        toplevel(spaces(s)) matches Ok((rest, first)) ==> ({
            let (end, _) = statements(spaces(rest), seq![first]);
            end.len() > 0 ==> module(s) == Err::<(Seq<char>, Tree), _>(
                Failure { rest: end, kind: ErrorKind::Eof },
            )
        }),
{
}

} // verus!

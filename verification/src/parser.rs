//! The parser: one function for each rule of the grammar.
//!
//! Every function takes the text that is left and returns the rest behind
//! what it recognised together with its value, or the error of the rule. What
//! each returns is stated by the rule of the same name in [`crate::lexical`]
//! and [`crate::grammar`], applied to the characters of the input.

use vstd::prelude::*;
use vstd::string::StringExecFns;
use vstd::utf8::{char_is_scalar, char_u32_cast};
use std::borrow::Cow;
use crate::ast::{
    lemma_trees_of_empty, lemma_trees_of_push, trees_of, Constness, ExprType, Node, Operator,
    Tree,
};
use crate::chars::{decimal_digit, hex_digit, is_digit, unescape, CharClass};
use crate::error::{outcome_of, ErrorKind, Outcome, ParseError, ParseResult};
use crate::grammar::{
    binary, binary_tail, binding, block, constness_of, expr, fn_ty, lemma_binding_advances,
    lemma_operand_advances, lemma_stmt_advances, lemma_type_rules_advance, module, more_params,
    operand, operator_of, param, params, paren_expr, primary, return_type, statements, stmt,
    tier_rank, toplevel, type_expr, Tier,
};
use crate::lexical::{
    boolean, decimal_number, escaped_chr, escaped_unicode, exponent_mark_len, fraction_len,
    hex_number, hex_run_len, ident, ident_raw, ident_tail_len, lemma_decimal_number_prefix,
    lemma_ident, lemma_run_len, lemma_spaces, lemma_str_fragment, lit, lit_chr, lit_dec,
    lit_int, lit_str, sign_len, single_unescaped_chr, str_body, str_fragment, FragmentTree,
};
use crate::scan::{skip_spaces, take_char, take_run, take_tag};
use crate::text::{consumed, is_suffix_of, lemma_suffix_refl, lemma_suffix_skip, split_first};

verus! {

/// A piece of the body of a string literal.
#[derive(Debug, PartialEq, Eq)]
pub enum StrFragment<'f> {
    /// A run of ordinary characters, borrowed from the source.
    Unescaped(&'f str),
    /// The character that an escape sequence stands for.
    Escaped(char),
}

impl<'f> View for StrFragment<'f> {
    type V = FragmentTree;

    open spec fn view(&self) -> FragmentTree {
        match self {
            StrFragment::Unescaped(run) => FragmentTree::Unescaped(run@),
            StrFragment::Escaped(c) => FragmentTree::Escaped(*c),
        }
    }
}

/// The parser of one source file.
pub struct Parser<'p> {
    /// The name of the file that the source was read from.
    pub fname: &'p str,
}

/// Drops what may follow the first character of an identifier.
fn skip_ident_tail<'a>(input: &'a str) -> (rest: &'a str)
    ensures
        rest@ == input@.skip(ident_tail_len(input@) as int),
        ident_tail_len(input@) <= input@.len(),
{
    let mut rest = input;
    proof {
        assert(input@.skip(0) =~= input@);
    }
    loop
        invariant
            is_suffix_of(rest@, input@),
            ident_tail_len(input@) == (input@.len() - rest@.len()) + ident_tail_len(rest@),
        ensures
            is_suffix_of(rest@, input@),
            ident_tail_len(input@) == input@.len() - rest@.len(),
        decreases rest@.len(),
    {
        let body = match split_first(rest) {
            Some((c, tail)) => if c == '_' {
                tail
            } else {
                rest
            },
            None => rest,
        };
        let (after, run) = take_run(body, CharClass::AlphaNumeric);
        if run.is_empty() {
            break ;
        }
        proof {
            assert(body@ =~= rest@.skip(rest@.len() - body@.len()));
            assert(after@ =~= input@.skip(input@.len() - after@.len()));
            assert(after@ =~= rest@.skip(rest@.len() - after@.len()));
        }
        rest = after;
    }
    rest
}

/// Whether the text holds no character.
fn text_is_empty(text: &Cow<'_, str>) -> (b: bool)
    ensures
        b == (text@.len() == 0),
{
    match text {
        Cow::Borrowed(slice) => slice.is_empty(),
        Cow::Owned(buffer) => buffer.as_str().is_empty(),
    }
}

/// The text as a buffer of its own, copied where it was borrowed.
fn text_into_buffer(text: Cow<'_, str>) -> (buffer: String)
    ensures
        buffer@ == text@,
{
    match text {
        Cow::Borrowed(slice) => slice.to_owned(),
        Cow::Owned(buffer) => buffer,
    }
}

/// Drops a minus sign, if the text starts with one, and tells whether it
/// did.
fn take_sign<'a>(input: &'a str) -> (r: (&'a str, bool))
    ensures
        r.0@ == input@.skip(sign_len(input@) as int),
        r.1 == (sign_len(input@) == 1),
        sign_len(input@) <= input@.len(),
{
    match take_char(input, '-') {
        Ok((rest, _)) => (rest, true),
        Err(_) => {
            proof {
                assert(input@.skip(0) =~= input@);
            }
            (input, false)
        },
    }
}

/// Drops a point and the digits behind it, if the text starts with them.
fn skip_fraction<'a>(input: &'a str) -> (rest: &'a str)
    ensures
        rest@ == input@.skip(fraction_len(input@) as int),
        fraction_len(input@) <= input@.len(),
{
    proof {
        assert(input@.skip(0) =~= input@);
    }
    match take_char(input, '.') {
        Ok((after_point, _)) => {
            let (rest, digits) = take_run(after_point, CharClass::Digit);
            if digits.is_empty() {
                input
            } else {
                proof {
                    assert(rest@ =~= input@.skip(fraction_len(input@) as int));
                }
                rest
            }
        },
        Err(_) => input,
    }
}

/// Drops an exponent marker and the sign behind it, if the text starts with
/// them.
fn skip_exponent_mark<'a>(input: &'a str) -> (rest: &'a str)
    ensures
        rest@ == input@.skip(exponent_mark_len(input@) as int),
        exponent_mark_len(input@) <= input@.len(),
{
    proof {
        assert(input@.skip(0) =~= input@);
    }
    match split_first(input) {
        Some((c, after_mark)) => {
            if c == 'e' || c == 'E' {
                match split_first(after_mark) {
                    Some((sign, after_sign)) => {
                        if sign == '+' || sign == '-' {
                            proof {
                                assert(after_sign@ =~= input@.skip(2));
                            }
                            after_sign
                        } else {
                            after_mark
                        }
                    },
                    None => after_mark,
                }
            } else {
                input
            }
        },
        None => input,
    }
}

/// The number that a run of decimal digits writes, as long as it is at most
/// 2^63, the largest magnitude that a 64-bit integer can take.
fn decimal_magnitude(digits: &str) -> (r: Option<u64>)
    requires
        forall|i: int| 0 <= i < digits@.len() ==> is_digit(#[trigger] digits@[i]),
    ensures
        match r {
            Some(m) => m == decimal_number(digits@) && m <= 0x8000_0000_0000_0000,
            None => decimal_number(digits@) > 0x8000_0000_0000_0000,
        },
{
    let mut rest = digits;
    let mut value: u64 = 0;
    proof {
        assert(digits@.skip(0) =~= digits@);
    }
    loop
        invariant
            forall|i: int| 0 <= i < digits@.len() ==> is_digit(#[trigger] digits@[i]),
            is_suffix_of(rest@, digits@),
            value == decimal_number(digits@.take(digits@.len() - rest@.len())),
            value <= 0x8000_0000_0000_0000,
        decreases rest@.len(),
    {
        match split_first(rest) {
            None => {
                proof {
                    assert(digits@.take(digits@.len() as int) =~= digits@);
                }
                return Some(value);
            },
            Some((c, tail)) => {
                let ghost at = digits@.len() - rest@.len();
                let ghost next = digits@.take(at + 1);
                proof {
                    assert(c == digits@[at]);
                    assert(next.drop_last() =~= digits@.take(at));
                    assert(next.last() == c);
                    assert(tail@ =~= digits@.skip(at + 1));
                    lemma_decimal_number_prefix(digits@, at + 1);
                }
                let digit = match decimal_digit(c) {
                    Some(d) => d,
                    None => 0,
                };
                if value > 922337203685477580 || (value == 922337203685477580 && digit > 8) {
                    return None;
                }
                value = value * 10 + digit as u64;
                rest = tail;
            },
        }
    }
}

impl<'p> Parser<'p> {
    /// Recognises a string literal and decodes its escapes. The text of the
    /// literal is a slice of the source unless an escape had to be decoded.
    pub fn parse_lit_str(input: &'p str) -> (r: ParseResult<'p, Node<'p>>)
        ensures
            outcome_of(r) == lit_str(input@),
    {
        let body = match take_char(input, '"') {
            Ok((rest, _)) => rest,
            Err(e) => {
                return Err(e);
            },
        };
        let mut text: Cow<'p, str> = Cow::Borrowed("");
        let mut rest = body;
        proof {
            reveal_strlit("");
            assert(text@ =~= Seq::empty());
        }
        loop
            invariant
                lit_str(input@) == str_body(rest@, text@, text is Owned),
            decreases rest@.len(),
        {
            match take_char(rest, '"') {
                Ok((tail, _)) => {
                    return Ok((tail, Node::lit_str(text)));
                },
                Err(_) => {},
            }
            match Self::parse_str_fragment(rest) {
                Ok((tail, fragment)) => {
                    proof {
                        lemma_str_fragment(rest@);
                    }
                    match fragment {
                        StrFragment::Escaped(c) => {
                            let mut buffer = text_into_buffer(text);
                            buffer.push(c);
                            text = Cow::Owned(buffer);
                        },
                        StrFragment::Unescaped(run) => {
                            if text_is_empty(&text) {
                                text = Cow::Borrowed(run);
                            } else {
                                let mut buffer = text_into_buffer(text);
                                buffer.append(run);
                                text = Cow::Owned(buffer);
                            }
                        },
                    }
                    rest = tail;
                },
                Err(e) => {
                    return Err(e);
                },
            }
        }
    }

    /// Recognises a character literal.
    pub fn parse_lit_chr(input: &'p str) -> (r: ParseResult<'p, Node<'p>>)
        ensures
            outcome_of(r) == lit_chr(input@),
    {
        let body = match take_char(input, '\'') {
            Ok((rest, _)) => rest,
            Err(e) => {
                return Err(e);
            },
        };
        let inner = match Self::parse_escaped_chr(body) {
            Ok(found) => Ok(found),
            Err(_) => Self::parse_single_unescaped_chr(body),
        };
        let (rest, c) = match inner {
            Ok(found) => found,
            Err(e) => {
                return Err(e);
            },
        };
        match take_char(rest, '\'') {
            Ok((rest, _)) => Ok((rest, Node::lit_chr(c))),
            Err(e) => Err(e),
        }
    }

    /// Recognises a decimal literal; the node holds its text.
    pub fn parse_lit_dec(input: &'p str) -> (r: ParseResult<'p, Node<'p>>)
        ensures
            outcome_of(r) == lit_dec(input@),
    {
        let (whole, _) = take_sign(input);
        let (fraction, digits) = take_run(whole, CharClass::Digit);
        if digits.is_empty() {
            return Err(ParseError::new(whole, ErrorKind::Digit));
        }
        let mark = skip_fraction(fraction);
        let closing = skip_exponent_mark(mark);
        let (rest, last) = take_run(closing, CharClass::Digit);
        if last.is_empty() {
            return Err(ParseError::new(closing, ErrorKind::Digit));
        }
        proof {
            lemma_suffix_refl(input@);
            lemma_suffix_skip(input@, input@, sign_len(input@) as int);
            lemma_suffix_skip(whole@, input@, whole@.len() - fraction@.len());
            lemma_suffix_skip(fraction@, input@, fraction@.len() - mark@.len());
            lemma_suffix_skip(mark@, input@, mark@.len() - closing@.len());
            lemma_suffix_skip(closing@, input@, closing@.len() - rest@.len());
        }
        let text = consumed(input, rest);
        Ok((rest, Node::lit_dec(text)))
    }

    /// Recognises an integer literal and computes its value.
    pub fn parse_lit_int(input: &'p str) -> (r: ParseResult<'p, Node<'p>>)
        ensures
            outcome_of(r) == lit_int(input@),
    {
        let (whole, negative) = take_sign(input);
        let (rest, digits) = take_run(whole, CharClass::Digit);
        if digits.is_empty() {
            return Err(ParseError::new(whole, ErrorKind::Digit));
        }
        proof {
            lemma_run_len(whole@, CharClass::Digit);
        }
        match decimal_magnitude(digits) {
            None => Err(ParseError::new(input, ErrorKind::IntRange)),
            Some(magnitude) => {
                if negative {
                    if magnitude == 0x8000_0000_0000_0000 {
                        Ok((rest, Node::lit_int(i64::MIN)))
                    } else {
                        Ok((rest, Node::lit_int(-(magnitude as i64))))
                    }
                } else if magnitude > 0x7fff_ffff_ffff_ffff {
                    Err(ParseError::new(input, ErrorKind::IntRange))
                } else {
                    Ok((rest, Node::lit_int(magnitude as i64)))
                }
            },
        }
    }

    /// Recognises a literal: a string, else a character, else a decimal, else
    /// an integer.
    pub fn parse_lit(input: &'p str) -> (r: ParseResult<'p, Node<'p>>)
        ensures
            outcome_of(r) == lit(input@),
    {
        match Self::parse_lit_str(input) {
            Ok(found) => Ok(found),
            Err(_) => match Self::parse_lit_chr(input) {
                Ok(found) => Ok(found),
                Err(_) => match Self::parse_lit_dec(input) {
                    Ok(found) => Ok(found),
                    Err(_) => Self::parse_lit_int(input),
                },
            },
        }
    }

    /// Recognises an identifier and returns its text.
    pub fn parse_ident_raw(input: &'p str) -> (r: ParseResult<'p, &'p str>)
        ensures
            outcome_of(r) == ident_raw(input@),
    {
        match split_first(input) {
            None => Err(ParseError::new(input, ErrorKind::Eof)),
            Some((first, tail)) => {
                if !first.is_alphabetic() {
                    return Err(ParseError::new(input, ErrorKind::Alphabetic));
                }
                let rest = skip_ident_tail(tail);
                proof {
                    assert(rest@ =~= input@.skip(input@.len() - rest@.len()));
                }
                let name = consumed(input, rest);
                Ok((rest, name))
            },
        }
    }

    /// Recognises an identifier.
    pub fn parse_ident(input: &'p str) -> (r: ParseResult<'p, Node<'p>>)
        ensures
            outcome_of(r) == ident(input@),
    {
        match Self::parse_ident_raw(input) {
            Ok((rest, name)) => Ok((rest, Node::ident(name))),
            Err(e) => Err(e),
        }
    }

    /// Recognises one of the keywords `true` and `false`. No literal of the
    /// grammar is made of them: a rule that wants a truth value calls this.
    pub fn parse_bool(input: &'p str) -> (r: ParseResult<'p, bool>)
        ensures
            outcome_of(r) == boolean(input@),
    {
        match take_tag(input, "true") {
            Ok((rest, _)) => Ok((rest, true)),
            Err(_) => match take_tag(input, "false") {
                Ok((rest, _)) => Ok((rest, false)),
                Err(e) => Err(e),
            },
        }
    }

    /// Recognises one character that is no single quote.
    pub fn parse_single_unescaped_chr(input: &'p str) -> (r: ParseResult<'p, char>)
        ensures
            outcome_of(r) == single_unescaped_chr(input@),
    {
        match split_first(input) {
            None => Err(ParseError::new(input, ErrorKind::Eof)),
            Some((c, rest)) => {
                if c == '\'' {
                    Err(ParseError::new(input, ErrorKind::BareQuote))
                } else {
                    Ok((rest, c))
                }
            },
        }
    }

    /// Recognises what follows the backslash of a Unicode escape, and decodes
    /// it.
    pub fn parse_escaped_unicode(input: &'p str) -> (r: ParseResult<'p, char>)
        ensures
            outcome_of(r) == escaped_unicode(input@),
    {
        let digits = match split_first(input) {
            Some((c, tail)) => {
                if c != 'u' {
                    return Err(ParseError::new(input, ErrorKind::Char));
                }
                tail
            },
            None => {
                return Err(ParseError::new(input, ErrorKind::Char));
            },
        };
        let mut rest = digits;
        let mut value: u32 = 0;
        let mut count: usize = 0;
        proof {
            assert(digits@.skip(0) =~= digits@);
        }
        while count < 4
            invariant
                input@.len() > 0,
                input@[0] == 'u',
                digits@ == input@.skip(1),
                count <= 4,
                count <= digits@.len(),
                rest@ == digits@.skip(count as int),
                hex_run_len(digits@, 4) == count + hex_run_len(rest@, (4 - count) as nat),
                value == hex_number(digits@.take(count as int)),
                count == 0 ==> value == 0,
                count == 1 ==> value < 0x10,
                count == 2 ==> value < 0x100,
                count == 3 ==> value < 0x1000,
                count == 4 ==> value < 0x10000,
            decreases 4 - count,
        {
            let digit = match split_first(rest) {
                Some((c, tail)) => match hex_digit(c) {
                    Some(v) => Some((v, tail)),
                    None => None,
                },
                None => None,
            };
            match digit {
                Some((v, tail)) => {
                    proof {
                        let next = digits@.take(count + 1);
                        assert(next.drop_last() =~= digits@.take(count as int));
                        assert(next.last() == rest@[0]);
                        assert(tail@ =~= digits@.skip(count + 1));
                    }
                    value = value * 16 + v;
                    rest = tail;
                    count = count + 1;
                },
                None => {
                    return Err(ParseError::new(rest, ErrorKind::HexDigit));
                },
            }
        }
        match char::from_u32(value) {
            Some(c) => {
                proof {
                    char_is_scalar(c);
                    char_u32_cast(c, value);
                }
                Ok((rest, c))
            },
            None => Err(ParseError::new(digits, ErrorKind::Scalar)),
        }
    }

    /// Recognises an escape sequence and returns the character it stands for.
    pub fn parse_escaped_chr(input: &'p str) -> (r: ParseResult<'p, char>)
        ensures
            outcome_of(r) == escaped_chr(input@),
    {
        let tail = match split_first(input) {
            Some((c, tail)) => {
                if c != '\\' {
                    return Err(ParseError::new(input, ErrorKind::Char));
                }
                tail
            },
            None => {
                return Err(ParseError::new(input, ErrorKind::Char));
            },
        };
        let simple = match split_first(tail) {
            Some((c, rest)) => match unescape(c) {
                Some(found) => Some((rest, found)),
                None => None,
            },
            None => None,
        };
        match simple {
            Some((rest, found)) => {
                proof {
                    assert(rest@ =~= input@.skip(2));
                }
                Ok((rest, found))
            },
            None => Self::parse_escaped_unicode(tail),
        }
    }

    /// Recognises one fragment of the body of a string literal.
    pub fn parse_str_fragment(input: &'p str) -> (r: ParseResult<'p, StrFragment<'p>>)
        ensures
            outcome_of(r) == str_fragment(input@),
    {
        match Self::parse_escaped_chr(input) {
            Ok((rest, c)) => Ok((rest, StrFragment::Escaped(c))),
            Err(_) => {
                let (rest, run) = take_run(input, CharClass::Plain);
                if run.is_empty() {
                    Err(ParseError::new(input, ErrorKind::StrFragment))
                } else {
                    Ok((rest, StrFragment::Unescaped(run)))
                }
            },
        }
    }

    /// Recognises a type: a function type, or else a name.
    pub fn parse_type(input: &'p str) -> (r: ParseResult<'p, Node<'p>>)
        ensures
            outcome_of(r) == type_expr(input@),
        decreases input@.len(), 2nat,
    {
        match Self::parse_fn_ty(input) {
            Ok((rest, decl)) => Ok((rest, Node::ty(ExprType::function(decl)))),
            Err(_) => match Self::parse_ident_raw(input) {
                Ok((rest, name)) => Ok((rest, Node::ty(ExprType::named(name)))),
                Err(e) => Err(e),
            },
        }
    }

    /// Recognises a parameter of a function type.
    pub fn parse_param(input: &'p str) -> (r: ParseResult<'p, Node<'p>>)
        ensures
            outcome_of(r) == param(input@),
        decreases input@.len(), 0nat,
    {
        let (after_name, name) = match Self::parse_ident(input) {
            Ok(found) => found,
            Err(e) => {
                return Err(e);
            },
        };
        let after_colon = match take_tag(skip_spaces(after_name), ":") {
            Ok((rest, _)) => rest,
            Err(e) => {
                return Err(e);
            },
        };
        let type_at = skip_spaces(after_colon);
        proof {
            lemma_ident(input@);
            lemma_spaces(after_name@);
            lemma_spaces(after_colon@);
        }
        match Self::parse_type(type_at) {
            Ok((rest, ty)) => Ok((rest, Node::fn_param(name, ty))),
            Err(e) => Err(e),
        }
    }

    /// Recognises the parameters of a function type; the list may be empty.
    fn parse_params(input: &'p str) -> (r: (&'p str, Vec<Node<'p>>))
        ensures
            (r.0@, trees_of(r.1@)) == params(input@),
        decreases input@.len(), 1nat,
    {
        let mut found: Vec<Node<'p>> = Vec::new();
        proof {
            lemma_trees_of_empty();
            lemma_type_rules_advance(input@);
        }
        let (first_rest, first) = match Self::parse_param(input) {
            Ok(parsed) => parsed,
            Err(_) => {
                return (input, found);
            },
        };
        proof {
            lemma_trees_of_push(found@, first);
            assert(trees_of(found@).push(first@) =~= seq![first@]);
        }
        found.push(first);
        let mut rest = first_rest;
        loop
            invariant
                params(input@) == more_params(rest@, trees_of(found@)),
                rest@.len() < input@.len(),
            decreases rest@.len(),
        {
            let after_comma = match take_tag(skip_spaces(rest), ",") {
                Ok((tail, _)) => tail,
                Err(_) => {
                    return (rest, found);
                },
            };
            let next_at = skip_spaces(after_comma);
            proof {
                reveal_strlit(",");
                lemma_spaces(rest@);
                lemma_spaces(after_comma@);
                lemma_type_rules_advance(next_at@);
            }
            match Self::parse_param(next_at) {
                Ok((tail, next)) => {
                    proof {
                        lemma_trees_of_push(found@, next);
                    }
                    found.push(next);
                    rest = tail;
                },
                Err(_) => {
                    return (rest, found);
                },
            }
        }
    }

    /// Recognises the return type of a function type, if one is written.
    fn parse_return_type(input: &'p str) -> (r: Option<(&'p str, Node<'p>)>)
        ensures
            match r {
                Some((rest, ty)) => return_type(input@) == Some((rest@, ty@)),
                None => return_type(input@) is None,
            },
        decreases input@.len(), 3nat,
    {
        let after_arrow = match take_tag(skip_spaces(input), "->") {
            Ok((rest, _)) => rest,
            Err(_) => {
                return None;
            },
        };
        proof {
            lemma_spaces(input@);
            lemma_spaces(after_arrow@);
        }
        match Self::parse_type(skip_spaces(after_arrow)) {
            Ok(found) => Some(found),
            Err(_) => None,
        }
    }

    /// Recognises a function type.
    pub fn parse_fn_ty(input: &'p str) -> (r: ParseResult<'p, Node<'p>>)
        ensures
            outcome_of(r) == fn_ty(input@),
        decreases input@.len(), 1nat,
    {
        let after_fn = match take_tag(input, "fn") {
            Ok((rest, _)) => rest,
            Err(e) => {
                return Err(e);
            },
        };
        let after_paren = match take_char(skip_spaces(after_fn), '(') {
            Ok((rest, _)) => rest,
            Err(e) => {
                return Err(e);
            },
        };
        let params_at = skip_spaces(after_paren);
        proof {
            reveal_strlit("fn");
            lemma_spaces(after_fn@);
            lemma_spaces(after_paren@);
            lemma_type_rules_advance(params_at@);
        }
        let (after_params, args) = Self::parse_params(params_at);
        let after_close = match take_char(after_params, ')') {
            Ok((rest, _)) => rest,
            Err(e) => {
                return Err(e);
            },
        };
        match Self::parse_return_type(after_close) {
            Some((rest, ret)) => Ok((rest, Node::fn_decl(args, Some(ret)))),
            None => Ok((after_close, Node::fn_decl(args, None))),
        }
    }

    /// Recognises what a statement declares, up to the expression, and drops
    /// the whitespace before the expression.
    fn parse_binding(input: &'p str) -> (r: ParseResult<
        'p,
        (Node<'p>, Option<Node<'p>>, Constness),
    >)
        ensures
            binding_outcome(r) == binding(input@),
    {
        let (after_name, name) = match Self::parse_ident(input) {
            Ok(found) => found,
            Err(e) => {
                return Err(e);
            },
        };
        let after_colon = match take_tag(skip_spaces(after_name), ":") {
            Ok((rest, _)) => rest,
            Err(e) => {
                return Err(e);
            },
        };
        let (decider_at, ty) = match Self::parse_type(skip_spaces(after_colon)) {
            Ok((rest, ty)) => (skip_spaces(rest), Some(ty)),
            Err(_) => (after_colon, None),
        };
        match split_first(decider_at) {
            None => Err(ParseError::new(decider_at, ErrorKind::Eof)),
            Some((c, after_decider)) => match constness_for(c) {
                Some(constness) => Ok((skip_spaces(after_decider), (name, ty, constness))),
                None => Err(ParseError::new(decider_at, ErrorKind::Constness)),
            },
        }
    }

    /// Recognises a statement.
    pub fn parse_stmt_expr(input: &'p str) -> (r: ParseResult<'p, Node<'p>>)
        ensures
            outcome_of(r) == stmt(input@),
        decreases input@.len(), 0nat,
    {
        let (expr_at, (name, ty, constness)) = match Self::parse_binding(input) {
            Ok(found) => found,
            Err(e) => {
                return Err(e);
            },
        };
        proof {
            lemma_binding_advances(input@);
        }
        match Self::parse_expr(expr_at) {
            Ok((rest, value)) => Ok((rest, Node::stmt(constness, name, ty, value))),
            Err(e) => Err(e),
        }
    }

    /// Recognises the statements that follow the ones in `found`, for as
    /// long as there is one.
    fn parse_statements(input: &'p str, found: Vec<Node<'p>>) -> (r: (&'p str, Vec<Node<'p>>))
        ensures
            (r.0@, trees_of(r.1@)) == statements(input@, trees_of(found@)),
        decreases input@.len(), 1nat,
    {
        let ghost given = trees_of(found@);
        let mut items = found;
        let mut rest = input;
        loop
            invariant
                given == trees_of(found@),
                statements(input@, given) == statements(rest@, trees_of(items@)),
                rest@.len() <= input@.len(),
            decreases rest@.len(),
        {
            let item_at = skip_spaces(rest);
            proof {
                lemma_spaces(rest@);
                lemma_stmt_advances(item_at@);
            }
            match Self::parse_stmt_expr(item_at) {
                Ok((tail, item)) => {
                    proof {
                        lemma_trees_of_push(items@, item);
                        lemma_spaces(tail@);
                    }
                    items.push(item);
                    rest = skip_spaces(tail);
                },
                Err(_) => {
                    return (rest, items);
                },
            }
        }
    }

    /// Recognises a block: statements between braces.
    pub fn parse_fn_block(input: &'p str) -> (r: ParseResult<'p, Node<'p>>)
        ensures
            outcome_of(r) == block(input@),
        decreases input@.len(), 0nat,
    {
        let inside = match take_char(input, '{') {
            Ok((rest, _)) => rest,
            Err(e) => {
                return Err(e);
            },
        };
        proof {
            lemma_trees_of_empty();
        }
        let (close_at, items) = Self::parse_statements(inside, Vec::new());
        match take_char(close_at, '}') {
            Ok((rest, _)) => Ok((rest, Node::block(items))),
            Err(e) => Err(e),
        }
    }

    /// Recognises an operand of `tier` and the whitespace around it.
    fn parse_operand(tier: Tier, input: &'p str) -> (r: ParseResult<'p, Node<'p>>)
        ensures
            outcome_of(r) == operand(tier, input@),
        decreases input@.len(), 3 * tier_rank(tier) + 2,
    {
        let start = skip_spaces(input);
        proof {
            lemma_spaces(input@);
        }
        let inner = match tier {
            Tier::Multiplicative => Self::parse_primary(start),
            Tier::Additive => Self::parse_binary(Tier::Multiplicative, start),
        };
        match inner {
            Ok((rest, value)) => Ok((skip_spaces(rest), value)),
            Err(e) => Err(e),
        }
    }

    /// Recognises an expression of the operators of `tier`.
    fn parse_binary(tier: Tier, input: &'p str) -> (r: ParseResult<'p, Node<'p>>)
        ensures
            outcome_of(r) == binary(tier, input@),
        decreases input@.len(), 3 * tier_rank(tier) + 3,
    {
        let (first_rest, first) = match Self::parse_operand(tier, input) {
            Ok(found) => found,
            Err(e) => {
                return Err(e);
            },
        };
        proof {
            lemma_operand_advances(tier, input@);
        }
        let mut rest = first_rest;
        let mut lhs = first;
        loop
            invariant
                binary(tier, input@) == binary_tail(tier, rest@, lhs@),
                rest@.len() < input@.len(),
            decreases rest@.len(),
        {
            let next = match split_first(rest) {
                Some((c, after_op)) => match operator_for(tier, c) {
                    Some(op) => Some((op, after_op)),
                    None => None,
                },
                None => None,
            };
            match next {
                None => {
                    return Ok((rest, lhs));
                },
                Some((op, after_op)) => {
                    proof {
                        lemma_operand_advances(tier, after_op@);
                    }
                    match Self::parse_operand(tier, after_op) {
                        Ok((tail, rhs)) => {
                            lhs = Node::bin(op, lhs, rhs);
                            rest = tail;
                        },
                        Err(e) => {
                            return Err(e);
                        },
                    }
                },
            }
        }
    }

    /// Recognises an expression of the multiplicative operators `*` and `/`
    /// over primary expressions.
    pub fn parse_bin_multiplicative(input: &'p str) -> (r: ParseResult<'p, Node<'p>>)
        ensures
            outcome_of(r) == binary(Tier::Multiplicative, input@),
        decreases input@.len(), 4nat,
    {
        Self::parse_binary(Tier::Multiplicative, input)
    }

    /// Recognises an expression of the additive operators `+` and `-` over
    /// multiplicative expressions.
    pub fn parse_bin_additive(input: &'p str) -> (r: ParseResult<'p, Node<'p>>)
        ensures
            outcome_of(r) == binary(Tier::Additive, input@),
        decreases input@.len(), 7nat,
    {
        Self::parse_binary(Tier::Additive, input)
    }

    /// Recognises an expression in parentheses.
    pub fn parse_paren_expr(input: &'p str) -> (r: ParseResult<'p, Node<'p>>)
        ensures
            outcome_of(r) == paren_expr(input@),
        decreases input@.len(), 0nat,
    {
        let inside = match take_char(input, '(') {
            Ok((rest, _)) => rest,
            Err(e) => {
                return Err(e);
            },
        };
        let (rest, value) = match Self::parse_expr(inside) {
            Ok(found) => found,
            Err(e) => {
                return Err(e);
            },
        };
        match take_char(rest, ')') {
            Ok((rest, _)) => Ok((rest, value)),
            Err(e) => Err(e),
        }
    }

    /// Recognises a primary expression: an expression in parentheses, else
    /// an identifier, else a literal.
    pub fn parse_primary(input: &'p str) -> (r: ParseResult<'p, Node<'p>>)
        ensures
            outcome_of(r) == primary(input@),
        decreases input@.len(), 1nat,
    {
        match Self::parse_paren_expr(input) {
            Ok(found) => Ok(found),
            Err(_) => match Self::parse_ident(input) {
                Ok(found) => Ok(found),
                Err(_) => Self::parse_lit(input),
            },
        }
    }

    /// Recognises an expression: an expression of the additive operators,
    /// or else a block.
    pub fn parse_expr(input: &'p str) -> (r: ParseResult<'p, Node<'p>>)
        ensures
            outcome_of(r) == expr(input@),
        decreases input@.len(), 8nat,
    {
        match Self::parse_bin_additive(input) {
            Ok(found) => Ok(found),
            Err(_) => Self::parse_fn_block(input),
        }
    }

    /// Recognises a statement at the top level of a module.
    pub fn parse_toplevel(input: &'p str) -> (r: ParseResult<'p, Node<'p>>)
        ensures
            outcome_of(r) == toplevel(input@),
    {
        Self::parse_stmt_expr(input)
    }

    /// Parses a whole source text: one statement or more, up to the end of
    /// the text. On success nothing is left.
    pub fn parse_module(input: &'p str) -> (r: ParseResult<'p, Node<'p>>)
        ensures
            outcome_of(r) == module(input@),
            r matches Ok((rest, _)) ==> rest@.len() == 0,
    {
        let (first_rest, first) = match Self::parse_toplevel(skip_spaces(input)) {
            Ok(found) => found,
            Err(e) => {
                return Err(e);
            },
        };
        let mut items: Vec<Node<'p>> = Vec::new();
        proof {
            lemma_trees_of_empty();
            lemma_trees_of_push(items@, first);
            assert(trees_of(items@).push(first@) =~= seq![first@]);
        }
        items.push(first);
        let (end, items) = Self::parse_statements(skip_spaces(first_rest), items);
        if end.is_empty() {
            Ok((end, Node::module(items)))
        } else {
            Err(ParseError::new(end, ErrorKind::Eof))
        }
    }
}

/// The operator of `tier` that `c` writes.
pub fn operator_for(tier: Tier, c: char) -> (r: Option<Operator>)
    ensures
        r == operator_of(tier, c),
{
    match tier {
        Tier::Multiplicative => if c == '*' {
            Some(Operator::Mul)
        } else if c == '/' {
            Some(Operator::Div)
        } else {
            None
        },
        Tier::Additive => if c == '+' {
            Some(Operator::Add)
        } else if c == '-' {
            Some(Operator::Sub)
        } else {
            None
        },
    }
}

/// The constness that the character `c` decides.
pub fn constness_for(c: char) -> (r: Option<Constness>)
    ensures
        r == constness_of(c),
{
    if c == ':' {
        Some(Constness::Const)
    } else if c == '=' {
        Some(Constness::Mut)
    } else {
        None
    }
}

/// The result of the declaration of a statement as a mathematical value.
pub open spec fn binding_outcome<'a>(
    r: ParseResult<'a, (Node<'a>, Option<Node<'a>>, Constness)>,
) -> Outcome<(Tree, Option<Tree>, Constness)> {
    match r {
        Ok((rest, (name, ty, constness))) => Ok(
            (
                rest@,
                (
                    name@,
                    match ty {
                        Some(ty) => Some(ty@),
                        None => None,
                    },
                    constness,
                ),
            ),
        ),
        Err(e) => Err(e@),
    }
}

} // verus!

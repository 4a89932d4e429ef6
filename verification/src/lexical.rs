//! The lexical rules of the language, as functions on sequences of
//! characters: runs of a character class, single tokens, identifiers and
//! literals.
//!
//! Each rule takes the text that is left and answers with an [`Outcome`]: the
//! rest after what it recognised together with its value, or the place where
//! it gave up. A rule that fails has consumed nothing: its caller still holds
//! the text it passed in.

use vstd::prelude::*;
use vstd::utf8::is_scalar;
use crate::ast::Tree;
use crate::chars::{
    alphabetic, digit_value, hex_value, is_digit, is_hex_digit, simple_escape, CharClass,
};
use crate::error::{fail, ErrorKind, Outcome};
use crate::text::{is_suffix_of, lemma_suffix_refl, lemma_suffix_skip, lemma_suffix_trans};

verus! {

/// How many characters at the start of `s` belong to `class`.
pub open spec fn run_len(s: Seq<char>, class: CharClass) -> nat
    decreases s.len(),
{
    if s.len() > 0 && class.has(s[0]) {
        1 + run_len(s.skip(1), class)
    } else {
        0
    }
}

/// A run is a prefix of the text, made of the class alone, and what follows
/// it does not belong to the class.
pub proof fn lemma_run_len(s: Seq<char>, class: CharClass)
    ensures
        run_len(s, class) <= s.len(),
        forall|i: int| 0 <= i < run_len(s, class) ==> class.has(#[trigger] s[i]),
        run_len(s, class) < s.len() ==> !class.has(s[run_len(s, class) as int]),
    decreases s.len(),
{
    if s.len() > 0 && class.has(s[0]) {
        lemma_run_len(s.skip(1), class);
        assert forall|i: int| 0 <= i < run_len(s, class) implies class.has(#[trigger] s[i]) by {
            if i > 0 {
                assert(s[i] == s.skip(1)[i - 1]);
            }
        }
    }
}

/// The text after its leading whitespace.
pub open spec fn spaces(s: Seq<char>) -> Seq<char> {
    s.skip(run_len(s, CharClass::Space) as int)
}

/// The character `c`, and nothing else.
pub open spec fn expect_char(s: Seq<char>, c: char) -> Outcome<char> {
    if s.len() > 0 && s[0] == c {
        Ok((s.skip(1), c))
    } else {
        fail(s, ErrorKind::Char)
    }
}

/// The characters of `tag`, one after the other.
pub open spec fn expect_tag(s: Seq<char>, tag: Seq<char>) -> Outcome<Seq<char>> {
    if tag.is_prefix_of(s) {
        Ok((s.skip(tag.len() as int), tag))
    } else {
        fail(s, ErrorKind::Tag)
    }
}

/// The length of what may follow the first character of an identifier: any
/// number of alphanumeric runs, each of which one underscore may precede.
pub open spec fn ident_tail_len(s: Seq<char>) -> nat
    decreases s.len(),
{
    let lead: nat = if s.len() > 0 && s[0] == '_' {
        1
    } else {
        0
    };
    let run = run_len(s.skip(lead as int), CharClass::AlphaNumeric);
    if run == 0 {
        0
    } else {
        proof {
            lemma_run_len(s.skip(lead as int), CharClass::AlphaNumeric);
        }
        lead + run + ident_tail_len(s.skip((lead + run) as int))
    }
}

/// The length of the identifier at the start of `s`; `s` starts with an
/// alphabetic character.
pub open spec fn ident_len(s: Seq<char>) -> nat {
    1 + ident_tail_len(s.skip(1))
}

/// An identifier: an alphabetic character, then alphanumeric runs that single
/// underscores may separate from what precedes them.
pub open spec fn ident_raw(s: Seq<char>) -> Outcome<Seq<char>> {
    if s.len() == 0 {
        fail(s, ErrorKind::Eof)
    } else if !alphabetic(s[0]) {
        fail(s, ErrorKind::Alphabetic)
    } else {
        Ok((s.skip(ident_len(s) as int), s.take(ident_len(s) as int)))
    }
}

/// The tail of an identifier lies within the text.
pub proof fn lemma_ident_tail_len(s: Seq<char>)
    ensures
        ident_tail_len(s) <= s.len(),
    decreases s.len(),
{
    let lead: nat = if s.len() > 0 && s[0] == '_' {
        1
    } else {
        0
    };
    let run = run_len(s.skip(lead as int), CharClass::AlphaNumeric);
    lemma_run_len(s.skip(lead as int), CharClass::AlphaNumeric);
    if run > 0 {
        lemma_ident_tail_len(s.skip((lead + run) as int));
    }
}

/// An identifier as a node of the tree.
pub open spec fn ident(s: Seq<char>) -> Outcome<Tree> {
    match ident_raw(s) {
        Ok((rest, name)) => Ok((rest, Tree::Ident(name))),
        Err(e) => Err(e),
    }
}

/// The keywords `true` and `false`.
pub open spec fn boolean(s: Seq<char>) -> Outcome<bool> {
    match expect_tag(s, "true"@) {
        Ok((rest, _)) => Ok((rest, true)),
        Err(_) => match expect_tag(s, "false"@) {
            Ok((rest, _)) => Ok((rest, false)),
            Err(e) => Err(e),
        },
    }
}

/// A piece of the body of a string literal.
pub enum FragmentTree {
    /// A run of ordinary characters, as they stand in the source.
    Unescaped(Seq<char>),
    /// The character that an escape sequence stands for.
    Escaped(char),
}

/// How many of the first `limit` characters of `s` are hexadecimal digits
/// in a row.
pub open spec fn hex_run_len(s: Seq<char>, limit: nat) -> nat
    decreases limit,
{
    if limit > 0 && s.len() > 0 && is_hex_digit(s[0]) {
        1 + hex_run_len(s.skip(1), (limit - 1) as nat)
    } else {
        0
    }
}

/// The hexadecimal digits that were counted stand at the start of the text,
/// and the count stopped at the limit, at the end of the text, or at a
/// character that is no such digit.
pub proof fn lemma_hex_run_len(s: Seq<char>, limit: nat)
    ensures
        hex_run_len(s, limit) <= limit,
        hex_run_len(s, limit) <= s.len(),
        forall|i: int| 0 <= i < hex_run_len(s, limit) ==> is_hex_digit(#[trigger] s[i]),
        hex_run_len(s, limit) < limit && hex_run_len(s, limit) < s.len() ==> !is_hex_digit(
            s[hex_run_len(s, limit) as int],
        ),
    decreases limit,
{
    if limit > 0 && s.len() > 0 && is_hex_digit(s[0]) {
        lemma_hex_run_len(s.skip(1), (limit - 1) as nat);
        assert forall|i: int| 0 <= i < hex_run_len(s, limit) implies is_hex_digit(
            #[trigger] s[i],
        ) by {
            if i > 0 {
                assert(s[i] == s.skip(1)[i - 1]);
            }
        }
    }
}

/// The number that the hexadecimal digits `digits` write.
pub open spec fn hex_number(digits: Seq<char>) -> nat
    decreases digits.len(),
{
    if digits.len() == 0 {
        0
    } else {
        (16 * hex_number(digits.drop_last()) + hex_value(digits.last())) as nat
    }
}

/// The number that the decimal digits `digits` write.
pub open spec fn decimal_number(digits: Seq<char>) -> nat
    decreases digits.len(),
{
    if digits.len() == 0 {
        0
    } else {
        (10 * decimal_number(digits.drop_last()) + digit_value(digits.last())) as nat
    }
}

/// The number that the first digits of a run write is at most the number
/// that the whole run writes.
pub proof fn lemma_decimal_number_prefix(digits: Seq<char>, n: int)
    requires
        0 <= n <= digits.len(),
        forall|i: int| 0 <= i < digits.len() ==> is_digit(#[trigger] digits[i]),
    ensures
        decimal_number(digits.take(n)) <= decimal_number(digits),
    decreases digits.len(),
{
    if n == digits.len() {
        assert(digits.take(n) =~= digits);
    } else {
        assert(digits.drop_last().take(n) =~= digits.take(n));
        lemma_decimal_number_prefix(digits.drop_last(), n);
        assert(is_digit(digits.last()));
    }
}

/// What follows the backslash of a Unicode escape: `u` and exactly four
/// hexadecimal digits that name a scalar value.
pub open spec fn escaped_unicode(s: Seq<char>) -> Outcome<char> {
    if s.len() == 0 || s[0] != 'u' {
        fail(s, ErrorKind::Char)
    } else {
        let digits = s.skip(1);
        let found = hex_run_len(digits, 4);
        if found < 4 {
            fail(digits.skip(found as int), ErrorKind::HexDigit)
        } else if !is_scalar(hex_number(digits.take(4)) as u32) {
            fail(digits, ErrorKind::Scalar)
        } else {
            Ok((digits.skip(4), hex_number(digits.take(4)) as char))
        }
    }
}

/// An escape sequence: a backslash, then one of `/ " ' \ n r t`, or a
/// Unicode escape.
pub open spec fn escaped_chr(s: Seq<char>) -> Outcome<char> {
    if s.len() == 0 || s[0] != '\\' {
        fail(s, ErrorKind::Char)
    } else if s.len() > 1 && simple_escape(s[1]) is Some {
        Ok((s.skip(2), simple_escape(s[1])->0))
    } else {
        escaped_unicode(s.skip(1))
    }
}

/// Any one character but a single quote.
pub open spec fn single_unescaped_chr(s: Seq<char>) -> Outcome<char> {
    if s.len() == 0 {
        fail(s, ErrorKind::Eof)
    } else if s[0] == '\'' {
        fail(s, ErrorKind::BareQuote)
    } else {
        Ok((s.skip(1), s[0]))
    }
}

/// An escape sequence, or else a longest run of characters that are neither
/// a double quote nor a backslash.
pub open spec fn str_fragment(s: Seq<char>) -> Outcome<FragmentTree> {
    match escaped_chr(s) {
        Ok((rest, c)) => Ok((rest, FragmentTree::Escaped(c))),
        Err(_) => {
            let run = run_len(s, CharClass::Plain);
            if run == 0 {
                fail(s, ErrorKind::StrFragment)
            } else {
                Ok((s.skip(run as int), FragmentTree::Unescaped(s.take(run as int))))
            }
        },
    }
}

/// The body of a string literal from `s` on, up to and with the closing
/// quote; `text` is what the fragments before `s` have given, and `owned`
/// whether it had to be copied.
///
/// The text stays a slice of the source as long as a single unescaped
/// fragment makes it up; the first escape, or a fragment that has to be
/// joined to what is there, makes it a copy.
pub open spec fn str_body(s: Seq<char>, text: Seq<char>, owned: bool) -> Outcome<Tree>
    decreases s.len(),
{
    if s.len() > 0 && s[0] == '"' {
        Ok((s.skip(1), Tree::LitStr { text, owned }))
    } else {
        match str_fragment(s) {
            Ok((rest, fragment)) => {
                proof {
                    lemma_str_fragment(s);
                }
                match fragment {
                    FragmentTree::Escaped(c) => str_body(rest, text.push(c), true),
                    FragmentTree::Unescaped(run) => if text.len() == 0 {
                        str_body(rest, run, false)
                    } else {
                        str_body(rest, text + run, true)
                    },
                }
            },
            Err(e) => Err(e),
        }
    }
}

/// A string literal: a double quote, fragments, a double quote. Where a
/// fragment fails before the closing quote is found, its failure is reported.
pub open spec fn lit_str(s: Seq<char>) -> Outcome<Tree> {
    match expect_char(s, '"') {
        Ok((rest, _)) => str_body(rest, Seq::empty(), false),
        Err(e) => Err(e),
    }
}

/// A character literal: between single quotes, one escape sequence or one
/// character that is no single quote.
pub open spec fn lit_chr(s: Seq<char>) -> Outcome<Tree> {
    match expect_char(s, '\'') {
        Ok((body, _)) => {
            let inner = match escaped_chr(body) {
                Ok(found) => Ok(found),
                Err(_) => single_unescaped_chr(body),
            };
            match inner {
                Ok((rest, c)) => match expect_char(rest, '\'') {
                    Ok((rest, _)) => Ok((rest, Tree::LitChr(c))),
                    Err(e) => Err(e),
                },
                Err(e) => Err(e),
            }
        },
        Err(e) => Err(e),
    }
}

/// The length of an optional minus sign at the start of `s`.
pub open spec fn sign_len(s: Seq<char>) -> nat {
    if s.len() > 0 && s[0] == '-' {
        1
    } else {
        0
    }
}

/// The length of an optional fraction at the start of `s`: a point and at
/// least one digit.
pub open spec fn fraction_len(s: Seq<char>) -> nat {
    if s.len() > 0 && s[0] == '.' && run_len(s.skip(1), CharClass::Digit) > 0 {
        1 + run_len(s.skip(1), CharClass::Digit)
    } else {
        0
    }
}

/// The length of an optional exponent marker at the start of `s`: `e` or
/// `E`, and a sign if one follows.
pub open spec fn exponent_mark_len(s: Seq<char>) -> nat {
    if s.len() > 0 && (s[0] == 'e' || s[0] == 'E') {
        if s.len() > 1 && (s[1] == '+' || s[1] == '-') {
            2
        } else {
            1
        }
    } else {
        0
    }
}

/// A decimal literal: an optional minus sign, digits, an optional fraction,
/// an optional exponent marker, digits. Every run of digits is as long as it
/// can be, so the closing run is only ever found behind an exponent marker.
/// The value is the text that was recognised.
pub open spec fn lit_dec(s: Seq<char>) -> Outcome<Tree> {
    let whole = s.skip(sign_len(s) as int);
    let digits = run_len(whole, CharClass::Digit);
    if digits == 0 {
        fail(whole, ErrorKind::Digit)
    } else {
        let fraction = whole.skip(digits as int);
        let mark = fraction.skip(fraction_len(fraction) as int);
        let closing = mark.skip(exponent_mark_len(mark) as int);
        let last = run_len(closing, CharClass::Digit);
        if last == 0 {
            fail(closing, ErrorKind::Digit)
        } else {
            let rest = closing.skip(last as int);
            Ok((rest, Tree::LitDec(s.take(s.len() - rest.len()))))
        }
    }
}

/// Whether `value` can be held in 64 bits, sign included.
pub open spec fn fits_i64(value: int) -> bool {
    -0x8000_0000_0000_0000 <= value <= 0x7fff_ffff_ffff_ffff
}

/// An integer literal: an optional minus sign and digits, with the value
/// they write in base ten, which has to fit in 64 bits.
pub open spec fn lit_int(s: Seq<char>) -> Outcome<Tree> {
    let whole = s.skip(sign_len(s) as int);
    let digits = run_len(whole, CharClass::Digit);
    if digits == 0 {
        fail(whole, ErrorKind::Digit)
    } else {
        let magnitude = decimal_number(whole.take(digits as int));
        let value = if sign_len(s) == 1 {
            -magnitude
        } else {
            magnitude as int
        };
        if fits_i64(value) {
            Ok((whole.skip(digits as int), Tree::LitInt(value)))
        } else {
            fail(s, ErrorKind::IntRange)
        }
    }
}

/// A literal: a string, else a character, else a decimal, else an integer.
/// Where all four fail, the failure of the integer is reported.
pub open spec fn lit(s: Seq<char>) -> Outcome<Tree> {
    if lit_str(s) is Ok {
        lit_str(s)
    } else if lit_chr(s) is Ok {
        lit_chr(s)
    } else if lit_dec(s) is Ok {
        lit_dec(s)
    } else {
        lit_int(s)
    }
}

/// What holds of the outcome of every rule on the text `s`. Where the rule
/// succeeds, what it leaves is a rest of `s` and shorter than `s`: the rule
/// has consumed something. Where it fails, the place of the failure is a
/// rest of `s`: it never lies before the text that the rule was given.
pub open spec fn within<T>(o: Outcome<T>, s: Seq<char>) -> bool {
    match o {
        Ok((rest, _)) => is_suffix_of(rest, s) && rest.len() < s.len(),
        Err(e) => is_suffix_of(e.rest, s),
    }
}

/// What holds of a rule on a rest of a text holds of it on the text.
pub proof fn lemma_within_rest<T>(o: Outcome<T>, rest: Seq<char>, s: Seq<char>)
    requires
        within(o, rest),
        is_suffix_of(rest, s),
    ensures
        within(o, s),
{
    match o {
        Ok((left, _)) => lemma_suffix_trans(left, rest, s),
        Err(e) => lemma_suffix_trans(e.rest, rest, s),
    }
}

/// Dropping whitespace leaves a rest of the text.
pub proof fn lemma_spaces(s: Seq<char>)
    ensures
        is_suffix_of(spaces(s), s),
{
    lemma_run_len(s, CharClass::Space);
    lemma_suffix_refl(s);
    lemma_suffix_skip(s, s, run_len(s, CharClass::Space) as int);
}

/// A required character is one character.
pub proof fn lemma_expect_char(s: Seq<char>, c: char)
    ensures
        within(expect_char(s, c), s),
{
    lemma_suffix_refl(s);
    if s.len() > 0 {
        lemma_suffix_skip(s, s, 1);
    }
}

/// A keyword that is not empty consumes something.
pub proof fn lemma_expect_tag(s: Seq<char>, tag: Seq<char>)
    requires
        tag.len() > 0,
    ensures
        within(expect_tag(s, tag), s),
{
    lemma_suffix_refl(s);
    if tag.is_prefix_of(s) {
        lemma_suffix_skip(s, s, tag.len() as int);
    }
}

/// An identifier consumes something.
pub proof fn lemma_ident(s: Seq<char>)
    ensures
        within(ident_raw(s), s),
        within(ident(s), s),
{
    lemma_suffix_refl(s);
    if s.len() > 0 {
        lemma_ident_tail_len(s.skip(1));
        lemma_suffix_skip(s, s, ident_len(s) as int);
    }
}

/// An identifier is the very text that was consumed, and it starts with an
/// alphabetic character.
pub proof fn lemma_ident_text(s: Seq<char>)
    ensures
        ident_raw(s) matches Ok((rest, name)) ==> name.len() > 0 && alphabetic(name[0]) && name
            + rest == s,
{
    if s.len() > 0 {
        lemma_ident_tail_len(s.skip(1));
        assert(s.take(ident_len(s) as int) + s.skip(ident_len(s) as int) =~= s);
    }
}

/// A truth value consumes its keyword.
pub proof fn lemma_boolean(s: Seq<char>)
    ensures
        within(boolean(s), s),
{
    reveal_strlit("true");
    reveal_strlit("false");
    lemma_expect_tag(s, "true"@);
    lemma_expect_tag(s, "false"@);
}

/// A Unicode escape consumes its `u` and its digits, and fails within the
/// text.
pub proof fn lemma_escaped_unicode(s: Seq<char>)
    ensures
        within(escaped_unicode(s), s),
{
    lemma_suffix_refl(s);
    if s.len() > 0 {
        let digits = s.skip(1);
        lemma_suffix_skip(s, s, 1);
        lemma_hex_run_len(digits, 4);
        lemma_suffix_skip(digits, s, hex_run_len(digits, 4) as int);
    }
}

/// An escape sequence consumes its backslash and what follows it.
pub proof fn lemma_escaped_chr(s: Seq<char>)
    ensures
        within(escaped_chr(s), s),
{
    lemma_suffix_refl(s);
    if s.len() > 0 {
        lemma_suffix_skip(s, s, 1);
        lemma_escaped_unicode(s.skip(1));
        lemma_within_rest(escaped_unicode(s.skip(1)), s.skip(1), s);
        if s.len() > 1 {
            lemma_suffix_skip(s, s, 2);
        }
    }
}

/// A single character is one character.
pub proof fn lemma_single_unescaped_chr(s: Seq<char>)
    ensures
        within(single_unescaped_chr(s), s),
{
    lemma_suffix_refl(s);
    if s.len() > 0 {
        lemma_suffix_skip(s, s, 1);
    }
}

/// A fragment is never empty.
pub proof fn lemma_str_fragment(s: Seq<char>)
    ensures
        within(str_fragment(s), s),
{
    lemma_suffix_refl(s);
    lemma_escaped_chr(s);
    lemma_run_len(s, CharClass::Plain);
    lemma_suffix_skip(s, s, run_len(s, CharClass::Plain) as int);
}

/// The body of a string literal ends behind its closing quote, and gives
/// a string literal.
pub proof fn lemma_str_body(s: Seq<char>, text: Seq<char>, owned: bool)
    ensures
        within(str_body(s, text, owned), s),
        str_body(s, text, owned) matches Ok((_, tree)) ==> tree is LitStr,
    decreases s.len(),
{
    lemma_suffix_refl(s);
    if s.len() > 0 && s[0] == '"' {
        lemma_suffix_skip(s, s, 1);
    } else {
        lemma_str_fragment(s);
        match str_fragment(s) {
            Ok((rest, fragment)) => {
                let (next, copied) = match fragment {
                    FragmentTree::Escaped(c) => (text.push(c), true),
                    FragmentTree::Unescaped(run) => if text.len() == 0 {
                        (run, false)
                    } else {
                        (text + run, true)
                    },
                };
                lemma_str_body(rest, next, copied);
                lemma_within_rest(str_body(rest, next, copied), rest, s);
            },
            Err(_) => {},
        }
    }
}

/// A string literal consumes its quotes and what stands between them.
pub proof fn lemma_lit_str(s: Seq<char>)
    ensures
        within(lit_str(s), s),
{
    lemma_expect_char(s, '"');
    if s.len() > 0 {
        lemma_str_body(s.skip(1), Seq::empty(), false);
        lemma_within_rest(str_body(s.skip(1), Seq::empty(), false), s.skip(1), s);
    }
}

/// A character literal consumes its quotes and what stands between them.
pub proof fn lemma_lit_chr(s: Seq<char>)
    ensures
        within(lit_chr(s), s),
{
    lemma_expect_char(s, '\'');
    if s.len() > 0 {
        let body = s.skip(1);
        lemma_escaped_chr(body);
        lemma_single_unescaped_chr(body);
        let inner = match escaped_chr(body) {
            Ok(found) => Ok(found),
            Err(_) => single_unescaped_chr(body),
        };
        assert(within(inner, body));
        match inner {
            Ok((rest, c)) => {
                lemma_expect_char(rest, '\'');
                let closed = expect_char(rest, '\'');
                lemma_within_rest(closed, rest, body);
                lemma_within_rest(closed, body, s);
            },
            Err(e) => {
                lemma_within_rest(inner, body, s);
            },
        }
    }
}

/// The pieces of a decimal literal lie within the text, one behind the
/// other.
pub proof fn lemma_lit_dec(s: Seq<char>)
    ensures
        within(lit_dec(s), s),
{
    let whole = s.skip(sign_len(s) as int);
    let digits = run_len(whole, CharClass::Digit);
    lemma_suffix_refl(s);
    lemma_suffix_skip(s, s, sign_len(s) as int);
    lemma_run_len(whole, CharClass::Digit);
    if digits > 0 {
        let fraction = whole.skip(digits as int);
        lemma_suffix_skip(whole, s, digits as int);
        if fraction.len() > 0 {
            lemma_run_len(fraction.skip(1), CharClass::Digit);
        }
        let mark = fraction.skip(fraction_len(fraction) as int);
        lemma_suffix_skip(fraction, s, fraction_len(fraction) as int);
        let closing = mark.skip(exponent_mark_len(mark) as int);
        lemma_suffix_skip(mark, s, exponent_mark_len(mark) as int);
        let last = run_len(closing, CharClass::Digit);
        lemma_run_len(closing, CharClass::Digit);
        lemma_suffix_skip(closing, s, last as int);
    }
}

/// An integer literal consumes its digits.
pub proof fn lemma_lit_int(s: Seq<char>)
    ensures
        within(lit_int(s), s),
{
    let whole = s.skip(sign_len(s) as int);
    lemma_suffix_refl(s);
    lemma_suffix_skip(s, s, sign_len(s) as int);
    lemma_run_len(whole, CharClass::Digit);
    lemma_suffix_skip(whole, s, run_len(whole, CharClass::Digit) as int);
}

pub proof fn lemma_lit(s: Seq<char>)
    ensures
        within(lit(s), s),
{
    lemma_lit_str(s);
    lemma_lit_chr(s);
    lemma_lit_dec(s);
    lemma_lit_int(s);
}

} // verus!

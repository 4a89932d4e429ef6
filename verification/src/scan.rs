//! The smallest parsers: runs of a character class, one character, one
//! keyword.

use vstd::prelude::*;
use crate::chars::CharClass;
use crate::error::{outcome_of, ErrorKind, ParseError, ParseResult};
use crate::lexical::{expect_char, expect_tag, run_len, spaces};
use crate::text::{consumed, is_suffix_of, split_first};

verus! {

/// Splits off the longest prefix of `input` made of `class`: the rest comes
/// first, then the run. The run is empty where `input` does not start with
/// a character of the class.
pub fn take_run<'a>(input: &'a str, class: CharClass) -> (r: (&'a str, &'a str))
    ensures
        r.0@ == input@.skip(run_len(input@, class) as int),
        r.1@ == input@.take(run_len(input@, class) as int),
        run_len(input@, class) <= input@.len(),
{
    let mut rest = input;
    proof {
        assert(input@.skip(0) =~= input@);
    }
    loop
        invariant
            is_suffix_of(rest@, input@),
            run_len(input@, class) == (input@.len() - rest@.len()) + run_len(rest@, class),
        ensures
            is_suffix_of(rest@, input@),
            run_len(input@, class) == input@.len() - rest@.len(),
        decreases rest@.len(),
    {
        match split_first(rest) {
            Some((c, tail)) => {
                if class.contains(c) {
                    proof {
                        assert(tail@ =~= input@.skip(input@.len() - tail@.len()));
                    }
                    rest = tail;
                } else {
                    break ;
                }
            },
            None => {
                break ;
            },
        }
    }
    let run = consumed(input, rest);
    (rest, run)
}

/// Drops the whitespace at the start of `input`.
pub fn skip_spaces<'a>(input: &'a str) -> (rest: &'a str)
    ensures
        rest@ == spaces(input@),
{
    take_run(input, CharClass::Space).0
}

/// Takes the character `c` off the start of `input`.
pub fn take_char<'a>(input: &'a str, c: char) -> (r: ParseResult<'a, char>)
    ensures
        outcome_of(r) == expect_char(input@, c),
{
    match split_first(input) {
        Some((first, rest)) => {
            if first == c {
                Ok((rest, c))
            } else {
                Err(ParseError::new(input, ErrorKind::Char))
            }
        },
        None => Err(ParseError::new(input, ErrorKind::Char)),
    }
}

/// Takes the characters of `tag` off the start of `input`, and hands back
/// the slice of `input` that holds them.
pub fn take_tag<'a>(input: &'a str, tag: &str) -> (r: ParseResult<'a, &'a str>)
    ensures
        outcome_of(r) == expect_tag(input@, tag@),
{
    let mut rest = input;
    let mut wanted = tag;
    proof {
        assert(input@.skip(0) =~= input@);
        assert(tag@.skip(0) =~= tag@);
    }
    loop
        invariant
            is_suffix_of(rest@, input@),
            is_suffix_of(wanted@, tag@),
            input@.len() - rest@.len() == tag@.len() - wanted@.len(),
            forall|i: int| 0 <= i < tag@.len() - wanted@.len() ==> input@[i] == tag@[i],
        decreases wanted@.len(),
    {
        match split_first(wanted) {
            None => {
                let found = consumed(input, rest);
                proof {
                    assert(tag@ =~= input@.subrange(0, tag@.len() as int));
                    assert(found@ =~= tag@);
                }
                return Ok((rest, found));
            },
            Some((c, wanted_tail)) => {
                let ghost at = tag@.len() - wanted@.len();
                assert(c == tag@[at]);
                match split_first(rest) {
                    Some((first, tail)) => {
                        assert(first == input@[at]);
                        if first != c {
                            proof {
                                if tag@.is_prefix_of(input@) {
                                    assert(input@.subrange(0, tag@.len() as int)[at] == tag@[at]);
                                }
                            }
                            return Err(ParseError::new(input, ErrorKind::Tag));
                        }
                        proof {
                            assert(tail@ =~= input@.skip(input@.len() - tail@.len()));
                            assert(wanted_tail@ =~= tag@.skip(tag@.len() - wanted_tail@.len()));
                        }
                        rest = tail;
                        wanted = wanted_tail;
                    },
                    None => {
                        return Err(ParseError::new(input, ErrorKind::Tag));
                    },
                }
            },
        }
    }
}

} // verus!

//! Primitive operations on borrowed source text.
//!
//! A text is a `&str`; in contracts it is its sequence of characters. The
//! parser never indexes into a text: it peels characters off the front with
//! [`split_first`] and recovers what it has walked over with [`consumed`], so
//! every slice it hands out borrows from the source text.

use vstd::prelude::*;
use vstd::string::*;
use vstd::utf8::*;
use vstd::std_specs::iter::IteratorSpec;
use std::str::Chars;

verus! {

/// `rest` is what remains of `whole` after some prefix has been dropped.
pub open spec fn is_suffix_of(rest: Seq<char>, whole: Seq<char>) -> bool {
    rest.len() <= whole.len() && rest == whole.skip(whole.len() - rest.len())
}

/// The prefix of `whole` that was dropped to arrive at `rest`.
pub open spec fn prefix_before(whole: Seq<char>, rest: Seq<char>) -> Seq<char> {
    whole.take(whole.len() - rest.len())
}

/// `Chars::as_str` of std: the part of the underlying string slice that the
/// iterator has not yet walked over, borrowed for as long as that slice.
pub assume_specification<'a>[ Chars::<'a>::as_str ](chars: &Chars<'a>) -> (rest: &'a str)
    ensures
        rest@ == chars.remaining(),
;

/// `String::push` of std: appends one character to the end of the string.
pub assume_specification[ String::push ](s: &mut String, c: char)
    ensures
        final(s)@ == old(s)@.push(c),
;

/// `String::leak` of std: gives up the buffer of the string, which is then
/// never freed, and hands out its contents as a slice.
#[verifier::external_body]
fn leak(s: String) -> (text: &'static str)
    ensures
        text@ == s@,
{
    s.leak()
}

/// Turns a source text that was read at run time into one that lives as long
/// as the program, so that the nodes of its tree can borrow from it
/// wherever they go. The memory of the text is never given back.
pub fn make_static(s: String) -> (text: &'static str)
    ensures
        text@ == s@,
{
    leak(s)
}

/// What is left after dropping more of a rest is still a rest.
pub proof fn lemma_suffix_skip(rest: Seq<char>, whole: Seq<char>, n: int)
    requires
        is_suffix_of(rest, whole),
        0 <= n <= rest.len(),
    ensures
        is_suffix_of(rest.skip(n), whole),
{
    assert(rest.skip(n) =~= whole.skip(whole.len() - rest.skip(n).len()));
}

/// A rest of a rest is a rest.
pub proof fn lemma_suffix_trans(a: Seq<char>, b: Seq<char>, c: Seq<char>)
    requires
        is_suffix_of(a, b),
        is_suffix_of(b, c),
    ensures
        is_suffix_of(a, c),
{
    assert(a =~= c.skip(c.len() - a.len()));
}

/// Every text is a rest of itself.
pub proof fn lemma_suffix_refl(s: Seq<char>)
    ensures
        is_suffix_of(s, s),
{
    assert(s =~= s.skip(0));
}

/// Splits the text into its first character and everything after it.
pub fn split_first<'a>(input: &'a str) -> (r: Option<(char, &'a str)>)
    ensures
        match r {
            Some((c, rest)) => input@.len() > 0 && c == input@[0] && rest@ == input@.skip(1),
            None => input@.len() == 0,
        },
{
    broadcast use group_string_axioms;

    let mut it = input.chars();
    match it.next() {
        Some(c) => {
            let rest = it.as_str();
            assert(rest@ == input@.skip(1));
            Some((c, rest))
        },
        None => None,
    }
}

/// Whether two texts hold the same characters.
pub fn str_eq(a: &str, b: &str) -> (same: bool)
    ensures
        same == (a@ == b@),
{
    let mut left = a;
    let mut right = b;
    proof {
        lemma_suffix_refl(a@);
        lemma_suffix_refl(b@);
    }
    loop
        invariant
            is_suffix_of(left@, a@),
            is_suffix_of(right@, b@),
            a@.len() - left@.len() == b@.len() - right@.len(),
            forall|i: int| 0 <= i < a@.len() - left@.len() ==> a@[i] == b@[i],
        decreases left@.len(),
    {
        let ghost at = a@.len() - left@.len();
        match split_first(left) {
            None => {
                let same = right.is_empty();
                proof {
                    if same {
                        assert(a@ =~= b@);
                    }
                }
                return same;
            },
            Some((x, left_tail)) => match split_first(right) {
                None => {
                    return false;
                },
                Some((y, right_tail)) => {
                    assert(x == a@[at] && y == b@[at]);
                    if x != y {
                        return false;
                    }
                    proof {
                        lemma_suffix_skip(left@, a@, 1);
                        lemma_suffix_skip(right@, b@, 1);
                    }
                    left = left_tail;
                    right = right_tail;
                },
            },
        }
    }
}

/// Encoding distributes over concatenation.
proof fn lemma_encode_concat(a: Seq<char>, b: Seq<char>)
    ensures
        encode_utf8(a + b) == encode_utf8(a) + encode_utf8(b),
    decreases a.len(),
{
    if a.len() == 0 {
        assert(a + b =~= b);
        assert(encode_utf8(a) + encode_utf8(b) =~= encode_utf8(b));
    } else {
        assert((a + b).drop_first() =~= a.drop_first() + b);
        lemma_encode_concat(a.drop_first(), b);
        assert(encode_utf8(a + b) =~= encode_utf8(a) + encode_utf8(b));
    }
}

/// The encoding of a prefix ends on a character boundary of the whole.
proof fn lemma_boundary_after_prefix(a: Seq<char>, b: Seq<char>)
    ensures
        is_char_boundary(encode_utf8(a + b), encode_utf8(a).len() as int),
    decreases a.len(),
{
    broadcast use encode_utf8_valid_utf8;

    let bytes = encode_utf8(a + b);
    if a.len() > 0 {
        encode_utf8_first_scalar(a + b);
        assert((a + b).drop_first() =~= a.drop_first() + b);
        assert(pop_first_scalar(bytes) =~= encode_utf8(a.drop_first() + b));
        lemma_boundary_after_prefix(a.drop_first(), b);
        lemma_encode_concat(a, b);
    }
}

/// The part of `input` that was walked over to arrive at `rest`.
pub(crate) fn consumed<'a>(input: &'a str, rest: &'a str) -> (head: &'a str)
    requires
        is_suffix_of(rest@, input@),
    ensures
        head@ == prefix_before(input@, rest@),
        head@ + rest@ == input@,
{
    broadcast use encode_utf8_decode_utf8;

    let ghost a = prefix_before(input@, rest@);
    proof {
        assert(input@ =~= a + rest@);
        lemma_encode_concat(a, rest@);
        lemma_boundary_after_prefix(a, rest@);
    }
    let mid = input.as_bytes().len() - rest.as_bytes().len();
    let (head, _) = input.split_at(mid);
    proof {
        assert(head.spec_bytes() =~= encode_utf8(a));
        assert(decode_utf8(encode_utf8(head@)) == head@);
        assert(decode_utf8(encode_utf8(a)) == a);
    }
    head
}

} // verus!
